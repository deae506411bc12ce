use vstd::prelude::*;

verus! {

/// Appends one character to `s` (std's `String::push`).
/// Trusted: the new contents are the old contents followed by `c`.
#[verifier::external_body]
pub(crate) fn push_char(s: &mut String, c: char)
    ensures
        final(s)@ == old(s)@.push(c),
{
    s.push(c);
}

/// The characters of `s`, in order.
pub fn chars_of(s: &str) -> (out: Vec<char>)
    ensures
        out@ == s@,
{
    let mut out: Vec<char> = Vec::new();
    for c in it: s.chars()
        invariant
            out@ == it.seq().take(it.index() as int),
            it.seq() == s@,
    {
        out.push(c);
    }
    out
}

/// A `String` holding `chars[from..to]`.
pub fn string_from_chars(chars: &Vec<char>, from: usize, to: usize) -> (out: String)
    requires
        from <= to <= chars.len(),
    ensures
        out@ == chars@.subrange(from as int, to as int),
{
    let mut out = String::new();
    let mut i = from;
    while i < to
        invariant
            from <= i <= to <= chars.len(),
            out@ == chars@.subrange(from as int, i as int),
        decreases to - i,
    {
        push_char(&mut out, chars[i]);
        i += 1;
        assert(out@ =~= chars@.subrange(from as int, i as int));
    }
    out
}

/// Unicode `White_Space` characters, which std's `char::is_whitespace` recognises.
pub open spec fn is_white_space(c: char) -> bool {
    ||| ('\u{9}' <= c && c <= '\u{d}')
    ||| c == ' '
    ||| c == '\u{85}'
    ||| c == '\u{a0}'
    ||| c == '\u{1680}'
    ||| ('\u{2000}' <= c && c <= '\u{200a}')
    ||| c == '\u{2028}'
    ||| c == '\u{2029}'
    ||| c == '\u{202f}'
    ||| c == '\u{205f}'
    ||| c == '\u{3000}'
}

/// Executable test of `is_white_space`.
pub fn white_space(c: char) -> (b: bool)
    ensures
        b == is_white_space(c),
{
    ('\u{9}' <= c && c <= '\u{d}') || c == ' ' || c == '\u{85}' || c == '\u{a0}' || c
        == '\u{1680}' || ('\u{2000}' <= c && c <= '\u{200a}') || c == '\u{2028}' || c
        == '\u{2029}' || c == '\u{202f}' || c == '\u{205f}' || c == '\u{3000}'
}

/// `s` without its leading white space.
pub open spec fn trim_start_spec(s: Seq<char>) -> Seq<char>
    decreases s.len(),
{
    if s.len() > 0 && is_white_space(s[0]) {
        trim_start_spec(s.drop_first())
    } else {
        s
    }
}

/// `s` without its trailing white space.
pub open spec fn trim_end_spec(s: Seq<char>) -> Seq<char>
    decreases s.len(),
{
    if s.len() > 0 && is_white_space(s.last()) {
        trim_end_spec(s.drop_last())
    } else {
        s
    }
}

/// `s` without leading and trailing white space (std's `str::trim`).
pub open spec fn trim_spec(s: Seq<char>) -> Seq<char> {
    trim_end_spec(trim_start_spec(s))
}

/// Trimming the start of `s` drops exactly its leading white space: it leaves
/// `s` from the first character that is not white space (the returned place).
pub proof fn lemma_trim_start_place(s: Seq<char>) -> (a: int)
    ensures
        0 <= a <= s.len(),
        trim_start_spec(s) == s.skip(a),
        forall|i: int| 0 <= i < a ==> is_white_space(#[trigger] s[i]),
        a < s.len() ==> !is_white_space(s[a]),
    decreases s.len(),
{
    if s.len() > 0 && is_white_space(s[0]) {
        let a1 = lemma_trim_start_place(s.drop_first());
        assert(s.drop_first().skip(a1) =~= s.skip(a1 + 1));
        assert forall|i: int| 0 <= i < a1 + 1 implies is_white_space(#[trigger] s[i]) by {
            if i > 0 {
                assert(s[i] == s.drop_first()[i - 1]);
            }
        }
        a1 + 1
    } else {
        assert(s.skip(0) =~= s);
        0
    }
}

/// Trimming the end of `s` drops exactly its trailing white space: it leaves
/// `s` up to the last character that is not white space (the returned place).
pub proof fn lemma_trim_end_place(s: Seq<char>) -> (b: int)
    ensures
        0 <= b <= s.len(),
        trim_end_spec(s) == s.take(b),
        forall|i: int| b <= i < s.len() ==> is_white_space(#[trigger] s[i]),
        b > 0 ==> !is_white_space(s[b - 1]),
    decreases s.len(),
{
    if s.len() > 0 && is_white_space(s.last()) {
        let b1 = lemma_trim_end_place(s.drop_last());
        assert(s.drop_last().take(b1) =~= s.take(b1));
        assert forall|i: int| b1 <= i < s.len() implies is_white_space(#[trigger] s[i]) by {
            if i < s.len() - 1 {
                assert(s[i] == s.drop_last()[i]);
            }
        }
        b1
    } else {
        assert(s.take(s.len() as int) =~= s);
        s.len() as int
    }
}

/// Trimming keeps one unbroken piece `s[a..b]` of the text: everything before
/// and after it is white space, and the piece neither starts nor ends with
/// white space.
pub proof fn lemma_trim_piece(s: Seq<char>)
    ensures
        exists|a: int, b: int|
            {
                &&& 0 <= a <= b <= s.len()
                &&& trim_spec(s) == s.subrange(a, b)
                &&& forall|i: int|
                    0 <= i < s.len() && !(a <= i < b) ==> is_white_space(#[trigger] s[i])
                &&& a < b ==> !is_white_space(s[a]) && !is_white_space(s[b - 1])
            },
{
    let a = lemma_trim_start_place(s);
    let t = s.skip(a);
    let c = lemma_trim_end_place(t);
    let b = a + c;
    assert(t.take(c) =~= s.subrange(a, b));
    assert forall|i: int| 0 <= i < s.len() && !(a <= i < b) implies is_white_space(
        #[trigger] s[i],
    ) by {
        if i >= b {
            assert(s[i] == t[i - a]);
        }
    }
    if a < b {
        assert(s[a] == t[0]);
        assert(s[b - 1] == t[c - 1]);
    }
}

/// Bounds `(a, b)` such that `chars[a..b]` is `chars[from..to]` trimmed.
fn trim_bounds(chars: &Vec<char>, from: usize, to: usize) -> (r: (usize, usize))
    requires
        from <= to <= chars.len(),
    ensures
        from <= r.0 <= r.1 <= to,
        chars@.subrange(r.0 as int, r.1 as int) == trim_spec(
            chars@.subrange(from as int, to as int),
        ),
{
    let ghost s = chars@;
    let mut a = from;
    while a < to && white_space(chars[a])
        invariant
            from <= a <= to <= chars.len(),
            s == chars@,
            trim_start_spec(s.subrange(from as int, to as int)) == trim_start_spec(
                s.subrange(a as int, to as int),
            ),
        decreases to - a,
    {
        assert(s.subrange(a as int, to as int).drop_first() =~= s.subrange(a + 1, to as int));
        a += 1;
    }
    let mut b = to;
    while b > a && white_space(chars[b - 1])
        invariant
            from <= a <= b <= to <= chars.len(),
            s == chars@,
            trim_start_spec(s.subrange(from as int, to as int)) == s.subrange(a as int, to as int),
            trim_end_spec(s.subrange(a as int, to as int)) == trim_end_spec(
                s.subrange(a as int, b as int),
            ),
        decreases b - a,
    {
        assert(s.subrange(a as int, b as int).drop_last() =~= s.subrange(a as int, b - 1));
        b -= 1;
    }
    (a, b)
}

/// `s` without leading and trailing white space, as std's `str::trim` gives it.
pub fn trim(s: &str) -> (out: String)
    ensures
        out@ == trim_spec(s@),
{
    let chars = chars_of(s);
    let (a, b) = trim_bounds(&chars, 0, chars.len());
    assert(chars@.subrange(0, chars@.len() as int) =~= s@);
    string_from_chars(&chars, a, b)
}

} // verus!

verus! {

/// The decimal digit character for `d` (`0 <= d < 10`).
pub open spec fn digit_char(d: nat) -> char {
    (d + 48) as char
}

/// Decimal text of a natural number, without leading zeros.
pub open spec fn decimal_spec(n: nat) -> Seq<char>
    decreases n,
{
    if n < 10 {
        seq![digit_char(n)]
    } else {
        decimal_spec(n / 10).push(digit_char(n % 10))
    }
}

/// Decimal text of an integer, with a `-` in front of negative ones (as `{}` prints it).
pub open spec fn int_text(n: int) -> Seq<char> {
    if n < 0 {
        seq!['-'] + decimal_spec((-n) as nat)
    } else {
        decimal_spec(n as nat)
    }
}

/// Appends the decimal text of `n` to `out`.
pub fn push_decimal(out: &mut String, n: u64)
    ensures
        final(out)@ == old(out)@ + decimal_spec(n as nat),
    decreases n,
{
    if n >= 10 {
        push_decimal(out, n / 10);
    }
    let d: u8 = (n % 10) as u8;
    push_char(out, (d + 48u8) as char);
    assert(final(out)@ =~= old(out)@ + decimal_spec(n as nat));
}

/// Appends the decimal text of `n` to `out`, with `-` in front when negative.
pub fn push_int(out: &mut String, n: i64)
    ensures
        final(out)@ == old(out)@ + int_text(n as int),
{
    if n < 0 {
        push_char(out, '-');
        let m: i128 = -(n as i128);
        push_decimal(out, m as u64);
        assert(final(out)@ =~= old(out)@ + int_text(n as int));
    } else {
        push_decimal(out, n as u64);
    }
}

/// Whether `c` is an ASCII decimal digit.
pub open spec fn is_digit(c: char) -> bool {
    '0' <= c && c <= '9'
}

/// Value of a run of decimal digits (most significant first).
pub open spec fn digits_value(s: Seq<char>) -> nat
    decreases s.len(),
{
    if s.len() == 0 {
        0
    } else {
        digits_value(s.drop_last()) * 10 + ((s.last() as int - 48) as nat)
    }
}

/// Whether `s` is a non-empty run of decimal digits.
pub open spec fn is_digit_run(s: Seq<char>) -> bool {
    s.len() > 0 && forall|i: int| 0 <= i < s.len() ==> is_digit(#[trigger] s[i])
}

/// What std's `str::parse::<u32>` gives: an optional `+`, then at least one
/// decimal digit, with a value that fits.
pub open spec fn parse_u32_spec(s: Seq<char>) -> Option<u32> {
    let body = if s.len() > 0 && s[0] == '+' { s.drop_first() } else { s };
    if is_digit_run(body) && digits_value(body) <= u32::MAX {
        Some(digits_value(body) as u32)
    } else {
        None
    }
}

/// What std's `str::parse::<i32>` gives: an optional `+` or `-`, then at least
/// one decimal digit, with a value that fits.
pub open spec fn parse_i32_spec(s: Seq<char>) -> Option<i32> {
    let negative = s.len() > 0 && s[0] == '-';
    let body = if s.len() > 0 && (s[0] == '+' || s[0] == '-') { s.drop_first() } else { s };
    if !is_digit_run(body) {
        None
    } else if negative {
        if digits_value(body) <= 0x8000_0000 {
            Some((-(digits_value(body) as int)) as i32)
        } else {
            None
        }
    } else if digits_value(body) <= 0x7fff_ffff {
        Some(digits_value(body) as i32)
    } else {
        None
    }
}

proof fn lemma_digits_value_prefix(s: Seq<char>, k: int)
    requires
        0 <= k <= s.len(),
        forall|i: int| 0 <= i < s.len() ==> is_digit(#[trigger] s[i]),
    ensures
        digits_value(s.take(k)) <= digits_value(s),
    decreases s.len() - k,
{
    if k < s.len() {
        lemma_digits_value_prefix(s, k + 1);
        assert(s.take(k + 1).drop_last() =~= s.take(k));
        assert(s.take(k + 1).last() == s[k]);
    }
    assert(s.take(s.len() as int) =~= s);
}

/// Value of `chars[from..to]` read as decimal digits, when it is a non-empty
/// digit run whose value is at most `bound`.
fn digits_upto(chars: &Vec<char>, from: usize, to: usize, bound: u64) -> (r: Option<u64>)
    requires
        from <= to <= chars.len(),
        bound <= 0x1_0000_0000,
    ensures
        ({
            let body = chars@.subrange(from as int, to as int);
            match r {
                Some(v) => is_digit_run(body) && v == digits_value(body) && v <= bound,
                None => !is_digit_run(body) || digits_value(body) > bound,
            }
        }),
{
    let ghost body = chars@.subrange(from as int, to as int);
    if from == to {
        return None;
    }
    let mut acc: u64 = 0;
    let mut i = from;
    while i < to
        invariant
            from <= i <= to <= chars.len(),
            bound <= 0x1_0000_0000,
            body == chars@.subrange(from as int, to as int),
            forall|j: int| 0 <= j < i - from ==> is_digit(#[trigger] body[j]),
            acc == digits_value(body.take(i - from)),
            acc <= bound,
        decreases to - i,
    {
        let c = chars[i];
        if !('0' <= c && c <= '9') {
            assert(!is_digit(body[i - from]));
            return None;
        }
        let d: u64 = (c as u32 - 48) as u64;
        assert(body.take(i - from + 1).drop_last() =~= body.take(i - from));
        let next = acc * 10 + d;
        if next > bound {
            proof {
                if is_digit_run(body) {
                    lemma_digits_value_prefix(body, i - from + 1);
                }
            }
            return None;
        }
        acc = next;
        i += 1;
    }
    assert(body.take(to - from) =~= body);
    Some(acc)
}

/// std's `str::parse::<u32>`.
pub fn parse_u32(s: &str) -> (r: Option<u32>)
    ensures
        r == parse_u32_spec(s@),
{
    let chars = chars_of(s);
    let start: usize = if chars.len() > 0 && chars[0] == '+' { 1 } else { 0 };
    assert(s@.len() > 0 && s@[0] == '+' ==> s@.drop_first() =~= chars@.subrange(1, chars@.len() as int));
    assert(!(s@.len() > 0 && s@[0] == '+') ==> s@ =~= chars@.subrange(0, chars@.len() as int));
    match digits_upto(&chars, start, chars.len(), 0xffff_ffff) {
        Some(v) => Some(v as u32),
        None => None,
    }
}

/// std's `str::parse::<i32>`.
pub fn parse_i32(s: &str) -> (r: Option<i32>)
    ensures
        r == parse_i32_spec(s@),
{
    let chars = chars_of(s);
    let signed = chars.len() > 0 && (chars[0] == '+' || chars[0] == '-');
    let negative = chars.len() > 0 && chars[0] == '-';
    let start: usize = if signed { 1 } else { 0 };
    assert(signed ==> s@.drop_first() =~= chars@.subrange(1, chars@.len() as int));
    assert(!signed ==> s@ =~= chars@.subrange(0, chars@.len() as int));
    let bound: u64 = if negative { 0x8000_0000 } else { 0x7fff_ffff };
    match digits_upto(&chars, start, chars.len(), bound) {
        Some(v) => {
            if negative {
                Some((-(v as i64)) as i32)
            } else {
                Some(v as i32)
            }
        },
        None => None,
    }
}

} // verus!

verus! {

/// `line` with one `\r` removed from its end, if it ends in one.
pub open spec fn strip_cr(line: Seq<char>) -> Seq<char> {
    if line.len() > 0 && line.last() == '\r' {
        line.drop_last()
    } else {
        line
    }
}

/// The lines of `s` after a partial line `cur`: a `\n` (with a `\r` just
/// before it) ends a line, and a last line without `\n` is kept as it is
/// unless it is empty.
pub open spec fn lines_after(s: Seq<char>, cur: Seq<char>) -> Seq<Seq<char>>
    decreases s.len(),
{
    if s.len() == 0 {
        if cur.len() == 0 {
            seq![]
        } else {
            seq![cur]
        }
    } else if s[0] == '\n' {
        seq![strip_cr(cur)] + lines_after(s.drop_first(), seq![])
    } else {
        lines_after(s.drop_first(), cur.push(s[0]))
    }
}

/// The lines of `s`, as std's `str::lines` gives them.
pub open spec fn lines_spec(s: Seq<char>) -> Seq<Seq<char>> {
    lines_after(s, seq![])
}

/// The lines of `s` (std's `str::lines`).
pub fn lines_of(s: &str) -> (out: Vec<String>)
    ensures
        out.len() == lines_spec(s@).len(),
        forall|i: int| 0 <= i < out.len() ==> #[trigger] out[i]@ == lines_spec(s@)[i],
{
    let chars = chars_of(s);
    let n = chars.len();
    let ghost cs = chars@;
    let ghost done: Seq<Seq<char>> = seq![];
    let mut out: Vec<String> = Vec::new();
    let mut start: usize = 0;
    let mut i: usize = 0;
    assert(cs.subrange(0, n as int) =~= cs);
    assert(cs.subrange(0, 0) =~= Seq::<char>::empty());
    assert(done + lines_after(cs, seq![]) =~= lines_after(cs, seq![]));
    while i < n
        invariant
            start <= i <= n == chars.len(),
            cs == chars@,
            cs == s@,
            out.len() == done.len(),
            forall|k: int| 0 <= k < out.len() ==> #[trigger] out[k]@ == done[k],
            lines_spec(cs) == done + lines_after(
                cs.subrange(i as int, n as int),
                cs.subrange(start as int, i as int),
            ),
        decreases n - i,
    {
        let ghost rest = cs.subrange(i as int, n as int);
        let ghost cur = cs.subrange(start as int, i as int);
        assert(rest.drop_first() =~= cs.subrange(i + 1, n as int));
        if chars[i] == '\n' {
            let end: usize = if i > start && chars[i - 1] == '\r' { i - 1 } else { i };
            assert(cs.subrange(start as int, end as int) =~= strip_cr(cur));
            let line = string_from_chars(&chars, start, end);
            out.push(line);
            proof {
                assert(lines_after(rest, cur) == seq![strip_cr(cur)] + lines_after(rest.drop_first(), seq![]));
                assert(cs.subrange(i + 1, i + 1) =~= Seq::<char>::empty());
                assert(done.push(strip_cr(cur)) + lines_after(rest.drop_first(), seq![])
                    =~= done + (seq![strip_cr(cur)] + lines_after(rest.drop_first(), seq![])));
                done = done.push(strip_cr(cur));
            }
            start = i + 1;
        } else {
            assert(cur.push(chars[i as int]) =~= cs.subrange(start as int, i + 1));
        }
        i += 1;
    }
    if start < n {
        let line = string_from_chars(&chars, start, n);
        out.push(line);
        proof {
            assert(cs.subrange(n as int, n as int) =~= Seq::<char>::empty());
            assert(done + seq![cs.subrange(start as int, n as int)] =~= done.push(cs.subrange(start as int, n as int)));
            done = done.push(cs.subrange(start as int, n as int));
        }
    } else {
        assert(cs.subrange(n as int, n as int) =~= Seq::<char>::empty());
        assert(done + Seq::<Seq<char>>::empty() =~= done);
    }
    assert(lines_spec(cs) == done);
    out
}

/// A text without `\n`, after the partial line `cur`, gives one line (the two
/// together) unless both are empty.
pub proof fn lemma_lines_without_newline(s: Seq<char>, cur: Seq<char>)
    requires
        !s.contains('\n'),
    ensures
        lines_after(s, cur) == (if (cur + s).len() == 0 {
            Seq::<Seq<char>>::empty()
        } else {
            seq![cur + s]
        }),
    decreases s.len(),
{
    if s.len() == 0 {
        assert(cur + s =~= cur);
    } else {
        assert(s[0] != '\n') by {
            if s[0] == '\n' {
                assert(s.contains(s[0]));
            }
        }
        assert(!s.drop_first().contains('\n')) by {
            if s.drop_first().contains('\n') {
                let j = choose|j: int| 0 <= j < s.drop_first().len() && s.drop_first()[j] == '\n';
                assert(s[j + 1] == '\n');
            }
        }
        lemma_lines_without_newline(s.drop_first(), cur.push(s[0]));
        assert(cur.push(s[0]) + s.drop_first() =~= cur + s);
    }
}

/// Whatever precedes the first `\n` is one line (without a `\r` before the
/// `\n`); the lines after it are the lines of the rest.
pub proof fn lemma_lines_first_line(first: Seq<char>, rest: Seq<char>, cur: Seq<char>)
    requires
        !first.contains('\n'),
    ensures
        lines_after(first + seq!['\n'] + rest, cur) == seq![strip_cr(cur + first)] + lines_spec(rest),
    decreases first.len(),
{
    let s = first + seq!['\n'] + rest;
    if first.len() == 0 {
        assert(s.drop_first() =~= rest);
        assert(cur + first =~= cur);
    } else {
        assert(first[0] != '\n') by {
            if first[0] == '\n' {
                assert(first.contains(first[0]));
            }
        }
        assert(!first.drop_first().contains('\n')) by {
            if first.drop_first().contains('\n') {
                let j = choose|j: int|
                    0 <= j < first.drop_first().len() && first.drop_first()[j] == '\n';
                assert(first[j + 1] == '\n');
            }
        }
        assert(s[0] == first[0]);
        assert(s.drop_first() =~= first.drop_first() + seq!['\n'] + rest);
        lemma_lines_first_line(first.drop_first(), rest, cur.push(first[0]));
        assert(cur.push(first[0]) + first.drop_first() =~= cur + first);
    }
}

/// The pieces of `list` joined with `sep` between them.
pub open spec fn join_spec(list: Seq<Seq<char>>, sep: Seq<char>) -> Seq<char>
    decreases list.len(),
{
    if list.len() == 0 {
        seq![]
    } else if list.len() == 1 {
        list[0]
    } else {
        join_spec(list.drop_last(), sep) + sep + list.last()
    }
}

/// `list[from..to]` as a sequence of texts.
pub open spec fn texts(list: Seq<String>, from: int, to: int) -> Seq<Seq<char>> {
    Seq::new((to - from) as nat, |k: int| list[from + k]@)
}

/// Appends `list[from..to]` joined by `sep` to `out`.
pub fn push_joined(out: &mut String, list: &Vec<String>, from: usize, to: usize, sep: &str)
    requires
        from <= to <= list.len(),
    ensures
        final(out)@ == old(out)@ + join_spec(texts(list@, from as int, to as int), sep@),
{
    let ghost start = out@;
    let mut k: usize = from;
    while k < to
        invariant
            from <= k <= to <= list.len(),
            start == old(out)@,
            out@ == start + join_spec(texts(list@, from as int, k as int), sep@),
        decreases to - k,
    {
        let ghost prev = texts(list@, from as int, k as int);
        let ghost next = texts(list@, from as int, k + 1);
        assert(next.drop_last() =~= prev);
        if k > from {
            out.append(sep);
        }
        out.append(list[k].as_str());
        proof {
            if k == from {
                assert(join_spec(prev, sep@) =~= Seq::<char>::empty());
                assert(join_spec(next, sep@) == list@[from as int]@);
            }
        }
        assert(out@ =~= start + join_spec(next, sep@));
        k += 1;
    }
}

/// `text` cut to its first `max_chars` characters, with `...` appended when
/// something was cut.
pub open spec fn truncate_text_spec(text: Seq<char>, max_chars: nat) -> Seq<char> {
    if text.len() <= max_chars {
        text
    } else {
        text.take(max_chars as int) + "..."@
    }
}

/// Cuts `text` to at most `max_chars` characters, marking the cut with `...`.
pub fn truncate_text(text: &str, max_chars: usize) -> (out: String)
    ensures
        out@ == truncate_text_spec(text@, max_chars as nat),
{
    let chars = chars_of(text);
    if chars.len() <= max_chars {
        assert(chars@.subrange(0, chars@.len() as int) =~= text@);
        string_from_chars(&chars, 0, chars.len())
    } else {
        let mut out = string_from_chars(&chars, 0, max_chars);
        out.append("...");
        assert(chars@.subrange(0, max_chars as int) =~= text@.take(max_chars as int));
        out
    }
}

/// `diff` unchanged when it has at most `max_lines` lines; otherwise its first
/// `max_lines` lines joined by `\n`, then a line that says how many were left out.
pub open spec fn truncate_diff_spec(diff: Seq<char>, max_lines: nat) -> Seq<char> {
    let lines = lines_spec(diff);
    if lines.len() <= max_lines {
        diff
    } else {
        join_spec(lines.take(max_lines as int), "\n"@) + "\n... ("@ + decimal_spec(
            (lines.len() - max_lines) as nat,
        ) + " more lines truncated)"@
    }
}

/// Cuts a diff to at most `max_lines` lines, saying how many lines were cut.
pub fn truncate_diff(diff: &str, max_lines: usize) -> (out: String)
    ensures
        out@ == truncate_diff_spec(diff@, max_lines as nat),
{
    let lines = lines_of(diff);
    if lines.len() <= max_lines {
        let chars = chars_of(diff);
        assert(chars@.subrange(0, chars@.len() as int) =~= diff@);
        string_from_chars(&chars, 0, chars.len())
    } else {
        let mut out = String::new();
        push_joined(&mut out, &lines, 0, max_lines, "\n");
        assert(texts(lines@, 0, max_lines as int) =~= lines_spec(diff@).take(max_lines as int));
        out.append("\n... (");
        push_decimal(&mut out, (lines.len() - max_lines) as u64);
        out.append(" more lines truncated)");
        out
    }
}

} // verus!

verus! {

/// Lexicographic order on texts by character (the order of Rust's `str`
/// comparison, since UTF-8 keeps the order of code points).
pub open spec fn text_lt(a: Seq<char>, b: Seq<char>) -> bool
    decreases a.len(),
{
    if a.len() == 0 {
        b.len() > 0
    } else if b.len() == 0 {
        false
    } else if a[0] != b[0] {
        a[0] < b[0]
    } else {
        text_lt(a.drop_first(), b.drop_first())
    }
}

proof fn lemma_text_lt_pair(a: Seq<char>, b: Seq<char>)
    ensures
        !text_lt(a, a),
        text_lt(a, b) ==> !text_lt(b, a),
        a != b ==> text_lt(a, b) || text_lt(b, a),
    decreases a.len(),
{
    if a.len() > 0 {
        lemma_text_lt_pair(a.drop_first(), a.drop_first());
    }
    if a.len() > 0 && b.len() > 0 {
        lemma_text_lt_pair(a.drop_first(), b.drop_first());
        if a[0] == b[0] && a != b {
            assert(a.drop_first() != b.drop_first()) by {
                if a.drop_first() == b.drop_first() {
                    assert(a =~= seq![a[0]] + a.drop_first());
                    assert(b =~= seq![b[0]] + b.drop_first());
                }
            }
        }
    }
    if a.len() == 0 && b.len() == 0 {
        assert(a =~= b);
    }
}

proof fn lemma_text_lt_trans(a: Seq<char>, b: Seq<char>, c: Seq<char>)
    ensures
        text_lt(a, b) && text_lt(b, c) ==> text_lt(a, c),
    decreases a.len(),
{
    if a.len() > 0 && b.len() > 0 && c.len() > 0 {
        lemma_text_lt_trans(a.drop_first(), b.drop_first(), c.drop_first());
    }
}

/// `text_lt` is a strict total order.
pub proof fn lemma_text_lt_order(a: Seq<char>, b: Seq<char>, c: Seq<char>)
    ensures
        !text_lt(a, a),
        text_lt(a, b) ==> !text_lt(b, a),
        text_lt(a, b) && text_lt(b, c) ==> text_lt(a, c),
        a != b ==> text_lt(a, b) || text_lt(b, a),
{
    lemma_text_lt_pair(a, b);
    lemma_text_lt_trans(a, b, c);
}

/// Whether `a` comes strictly before `b` in `text_lt` order.
pub fn text_less(a: &str, b: &str) -> (r: bool)
    ensures
        r == text_lt(a@, b@),
{
    let x = chars_of(a);
    let y = chars_of(b);
    let mut i: usize = 0;
    assert(a@.skip(0) =~= a@ && b@.skip(0) =~= b@);
    while i < x.len() && i < y.len() && x[i] == y[i]
        invariant
            i <= x.len(),
            i <= y.len(),
            x@ == a@,
            y@ == b@,
            text_lt(a@, b@) == text_lt(a@.skip(i as int), b@.skip(i as int)),
        decreases x.len() - i,
    {
        assert(a@.skip(i as int).drop_first() =~= a@.skip(i + 1));
        assert(b@.skip(i as int).drop_first() =~= b@.skip(i + 1));
        i += 1;
    }
    if i == x.len() {
        i < y.len()
    } else if i == y.len() {
        false
    } else {
        x[i] < y[i]
    }
}

} // verus!

verus! {

/// Whether `a` and `b` hold the same text.
pub fn text_eq(a: &str, b: &str) -> (r: bool)
    ensures
        r == (a@ == b@),
{
    let x = chars_of(a);
    let y = chars_of(b);
    if x.len() != y.len() {
        return false;
    }
    let mut i: usize = 0;
    while i < x.len()
        invariant
            i <= x.len() == y.len(),
            x@ == a@,
            y@ == b@,
            forall|j: int| 0 <= j < i ==> x@[j] == y@[j],
        decreases x.len() - i,
    {
        if x[i] != y[i] {
            return false;
        }
        i += 1;
    }
    assert(x@ =~= y@);
    true
}


/// Cutting text keeps its beginning, adds at most the three dots, and leaves
/// text that is short enough as it is.
pub proof fn lemma_truncate_text(text: Seq<char>, max_chars: nat)
    ensures
        text.len() <= max_chars ==> truncate_text_spec(text, max_chars) == text,
        text.len() > max_chars ==> truncate_text_spec(text, max_chars).len() == max_chars + 3,
        text.len() > max_chars ==> truncate_text_spec(text, max_chars).take(max_chars as int)
            == text.take(max_chars as int),
{
    reveal_strlit("...");
    if text.len() > max_chars {
        assert(truncate_text_spec(text, max_chars).take(max_chars as int) =~= text.take(
            max_chars as int,
        ));
    }
}

/// A diff with at most `max_lines` lines is shown whole; a longer one shows
/// its first `max_lines` lines and how many more there were.
pub proof fn lemma_truncate_diff(diff: Seq<char>, max_lines: nat)
    ensures
        lines_spec(diff).len() <= max_lines ==> truncate_diff_spec(diff, max_lines) == diff,
        lines_spec(diff).len() > max_lines ==> truncate_diff_spec(diff, max_lines) == join_spec(
            lines_spec(diff).take(max_lines as int),
            "\n"@,
        ) + "\n... ("@ + decimal_spec((lines_spec(diff).len() - max_lines) as nat)
            + " more lines truncated)"@,
{
}

} // verus!
