use vstd::prelude::*;
use crate::track::ShuffleError;

verus! {

/// One `name = weight` line of the override file.
pub struct WeightOverride {
    pub name: String,
    pub weight: u32,
}

/// The segments of `s` between `'\n'` characters, in order; `s` empty gives
/// one empty segment.
pub open spec fn segments(s: Seq<char>) -> Seq<Seq<char>>
    decreases s.len(),
{
    if s.len() == 0 {
        seq![Seq::<char>::empty()]
    } else {
        let init = segments(s.drop_last());
        if s.last() == '\n' {
            init.push(Seq::<char>::empty())
        } else {
            init.update(init.len() - 1, init.last().push(s.last()))
        }
    }
}

/// A line without its trailing carriage return, if it has one.
pub open spec fn strip_cr(l: Seq<char>) -> Seq<char> {
    if l.len() > 0 && l.last() == '\r' {
        l.drop_last()
    } else {
        l
    }
}

/// The lines of a text: a line ends at `"\n"` or `"\r\n"`, and a terminator
/// at the very end opens no further line.
pub open spec fn text_lines(s: Seq<char>) -> Seq<Seq<char>> {
    let segs = segments(s);
    let kept = if segs.last().len() == 0 {
        segs.drop_last()
    } else {
        segs
    };
    kept.map_values(|l: Seq<char>| strip_cr(l))
}

pub open spec fn is_digit(c: char) -> bool {
    '0' <= c && c <= '9'
}

pub open spec fn digit_value(c: char) -> nat {
    (c as nat - '0' as nat) as nat
}

/// The number written by a string of decimal digits.
pub open spec fn digits_value(s: Seq<char>) -> nat
    decreases s.len(),
{
    if s.len() == 0 {
        0
    } else {
        digits_value(s.drop_last()) * 10 + digit_value(s.last())
    }
}

/// The digits of a weight field, after an optional leading `+`.
pub open spec fn weight_digits(s: Seq<char>) -> Seq<char> {
    if s.len() > 0 && s[0] == '+' {
        s.drop_first()
    } else {
        s
    }
}

/// A weight field: decimal digits, optionally after a `+`, whose value fits
/// in a `u32`.
pub open spec fn parse_weight(s: Seq<char>) -> Option<u32> {
    let d = weight_digits(s);
    if d.len() > 0 && (forall|i: int| 0 <= i < d.len() ==> is_digit(#[trigger] d[i]))
        && digits_value(d) <= u32::MAX {
        Some(digits_value(d) as u32)
    } else {
        None
    }
}

/// Whether the separator `" = "` starts at index `i` of `s`.
pub open spec fn is_sep_at(s: Seq<char>, i: int) -> bool {
    0 <= i && i + 3 <= s.len() && s[i] == ' ' && s[i + 1] == '=' && s[i + 2] == ' '
}

/// The first index at or after `i` where the separator starts, or -1.
pub open spec fn sep_index_from(s: Seq<char>, i: int) -> int
    decreases s.len() - i,
{
    if i < 0 || i + 3 > s.len() {
        -1
    } else if is_sep_at(s, i) {
        i
    } else {
        sep_index_from(s, i + 1)
    }
}

/// An override line: the name before the first `" = "`, and the weight
/// after it.
pub open spec fn parse_line(l: Seq<char>) -> Option<(Seq<char>, u32)> {
    let k = sep_index_from(l, 0);
    if k < 0 {
        None
    } else {
        match parse_weight(l.subrange(k + 3, l.len() as int)) {
            Some(w) => Some((l.subrange(0, k), w)),
            None => None,
        }
    }
}

/// Whether every line of the override text is well formed.
pub open spec fn all_lines_parse(lines: Seq<Seq<char>>) -> bool {
    forall|j: int| 0 <= j < lines.len() ==> (#[trigger] parse_line(lines[j])) is Some
}

/// The character sequences of a sequence of strings.
pub open spec fn views(v: Seq<String>) -> Seq<Seq<char>> {
    v.map_values(|l: String| l@)
}

pub open spec fn override_view(o: WeightOverride) -> (Seq<char>, u32) {
    (o.name@, o.weight)
}

proof fn lemma_digits_prefix_le(s: Seq<char>, i: int)
    requires
        0 <= i <= s.len(),
    ensures
        digits_value(s.take(i)) <= digits_value(s),
    decreases s.len() - i,
{
    if i < s.len() {
        lemma_digits_prefix_le(s, i + 1);
        assert(s.take(i + 1).drop_last() =~= s.take(i));
    } else {
        assert(s.take(i) =~= s);
    }
}

/// Reads a weight field; `None` where it is not a decimal number that fits
/// in a `u32`.
pub fn parse_weight_field(s: &str) -> (r: Option<u32>)
    ensures
        r == parse_weight(s@),
{
    let n = s.unicode_len();
    let mut start: usize = 0;
    if n > 0 && s.get_char(0) == '+' {
        start = 1;
    }
    let ghost d = weight_digits(s@);
    assert(d =~= s@.subrange(start as int, n as int));
    if start == n {
        return None;
    }
    let mut acc: u32 = 0;
    let mut i: usize = start;
    while i < n
        invariant
            start <= i <= n,
            n == s@.len(),
            d =~= s@.subrange(start as int, n as int),
            d == weight_digits(s@),
            forall|k: int| 0 <= k < i - start ==> is_digit(#[trigger] d[k]),
            acc as nat == digits_value(d.take(i - start)),
        decreases n - i,
    {
        let c = s.get_char(i);
        assert(c == d[i - start]);
        if !('0' <= c && c <= '9') {
            assert(!is_digit(d[i - start]));
            return None;
        }
        let v: u32 = (c as u32) - ('0' as u32);
        assert(d.take(i + 1 - start).drop_last() =~= d.take(i - start));
        assert(digits_value(d.take(i + 1 - start)) == acc * 10 + v);
        if acc > (u32::MAX - v) / 10 {
            proof {
                lemma_digits_prefix_le(d, i + 1 - start);
                assert(acc * 10 + v > u32::MAX) by (nonlinear_arith)
                    requires
                        acc > (u32::MAX - v) / 10,
                        v <= 9,
                ;
            }
            return None;
        }
        acc = acc * 10 + v;
        i = i + 1;
    }
    assert(d.take(n - start) =~= d);
    Some(acc)
}

proof fn lemma_sep_index(s: Seq<char>, i: int)
    requires
        0 <= i,
    ensures
        sep_index_from(s, i) >= 0 ==> sep_index_from(s, i) >= i && is_sep_at(
            s,
            sep_index_from(s, i),
        ),
    decreases s.len() - i,
{
    if i + 3 <= s.len() && !is_sep_at(s, i) {
        lemma_sep_index(s, i + 1);
    }
}

/// Index of the first `" = "` in `s`, if any.
fn find_separator(s: &str) -> (r: Option<usize>)
    ensures
        match r {
            Some(k) => sep_index_from(s@, 0) == k as int,
            None => sep_index_from(s@, 0) < 0,
        },
{
    let n = s.unicode_len();
    if n < 3 {
        return None;
    }
    let mut i: usize = 0;
    while i < n - 2
        invariant
            n == s@.len(),
            n >= 3,
            i <= n - 2,
            sep_index_from(s@, 0) == sep_index_from(s@, i as int),
        decreases n - i,
    {
        if s.get_char(i) == ' ' && s.get_char(i + 1) == '=' && s.get_char(i + 2) == ' ' {
            return Some(i);
        }
        i = i + 1;
    }
    None
}

/// Reads one `name = weight` line.
pub fn parse_override_line(l: &str) -> (r: Option<WeightOverride>)
    ensures
        match r {
            Some(o) => parse_line(l@) == Some(override_view(o)),
            None => parse_line(l@) is None,
        },
{
    let n = l.unicode_len();
    match find_separator(l) {
        None => None,
        Some(k) => {
            proof {
                lemma_sep_index(l@, 0);
            }
            let field = l.substring_char(k + 3, n);
            match parse_weight_field(field) {
                None => None,
                Some(w) => {
                    let name = String::from_str(l.substring_char(0, k));
                    Some(WeightOverride { name, weight: w })
                },
            }
        },
    }
}

/// Splits a text into its lines (see `text_lines`).
pub fn split_lines(text: &str) -> (r: Vec<String>)
    ensures
        views(r@) == text_lines(text@),
{
    let n = text.unicode_len();
    let mut done: Vec<String> = Vec::new();
    let mut start: usize = 0;
    let mut i: usize = 0;
    assert(text@.take(0) =~= Seq::<char>::empty());
    assert(text@.subrange(0, 0) =~= Seq::<char>::empty());
    assert(views(done@) =~= Seq::<Seq<char>>::empty());
    while i < n
        invariant
            n == text@.len(),
            start <= i <= n,
            segments(text@.take(i as int)) == views(done@).push(
                text@.subrange(start as int, i as int),
            ),
        decreases n - i,
    {
        let c = text.get_char(i);
        assert(text@.take(i + 1).drop_last() =~= text@.take(i as int));
        if c == '\n' {
            let seg = String::from_str(text.substring_char(start, i));
            done.push(seg);
            start = i + 1;
            assert(views(done@) =~= segments(text@.take(i as int)));
            assert(text@.subrange(start as int, i + 1) =~= Seq::<char>::empty());
        } else {
            assert(text@.subrange(start as int, i + 1) =~= text@.subrange(start as int, i as int).push(c));
        }
        i = i + 1;
        proof {
            let ghost v = views(done@);
            assert(v.push(text@.subrange(start as int, i as int)).drop_last() =~= v);
        }
    }
    assert(text@.take(n as int) =~= text@);
    let last = String::from_str(text.substring_char(start, n));
    let ghost segs = segments(text@);
    let ghost kept = if segs.last().len() == 0 {
        segs.drop_last()
    } else {
        segs
    };
    if start < n {
        done.push(last);
        assert(views(done@) =~= segs);
    } else {
        assert(views(done@) =~= kept);
    }
    assert(views(done@) == kept);
    let mut out: Vec<String> = Vec::new();
    let mut j: usize = 0;
    while j < done.len()
        invariant
            j <= done@.len(),
            out@.len() == j,
            forall|k: int| 0 <= k < j ==> (#[trigger] out@[k])@ == strip_cr(done@[k]@),
        decreases done@.len() - j,
    {
        let l = done[j].as_str();
        let m = l.unicode_len();
        let line = if m > 0 && l.get_char(m - 1) == '\r' {
            assert(l@.subrange(0, m - 1) =~= l@.drop_last());
            String::from_str(l.substring_char(0, m - 1))
        } else {
            String::from_str(l)
        };
        out.push(line);
        j = j + 1;
    }
    assert(views(out@) =~= text_lines(text@));
    out
}

/// Reads the whole override file. A malformed line fails the whole file,
/// with the index of the first such line.
pub fn parse_overrides(text: &str) -> (r: Result<Vec<WeightOverride>, ShuffleError>)
    ensures
        match r {
            Ok(v) => all_lines_parse(text_lines(text@)) && v@.len() == text_lines(text@).len()
                && forall|j: int|
                0 <= j < v@.len() ==> parse_line(text_lines(text@)[j]) == Some(
                    override_view(#[trigger] v@[j]),
                ),
            Err(e) => e matches ShuffleError::Parse { line } && line < text_lines(text@).len()
                && parse_line(text_lines(text@)[line as int]) is None && forall|j: int|
                0 <= j < line ==> (#[trigger] parse_line(text_lines(text@)[j])) is Some,
        },
{
    let lines = split_lines(text);
    let ghost ls = text_lines(text@);
    assert(forall|j: int| 0 <= j < lines@.len() ==> lines@[j]@ == #[trigger] ls[j]);
    let mut out: Vec<WeightOverride> = Vec::new();
    let mut j: usize = 0;
    while j < lines.len()
        invariant
            j <= lines@.len(),
            ls == text_lines(text@),
            lines@.len() == ls.len(),
            forall|k: int| 0 <= k < lines@.len() ==> lines@[k]@ == #[trigger] ls[k],
            out@.len() == j,
            forall|k: int|
                0 <= k < j ==> #[trigger] parse_line(ls[k]) == Some(override_view(out@[k])),
        decreases lines@.len() - j,
    {
        match parse_override_line(lines[j].as_str()) {
            Some(o) => {
                out.push(o);
            },
            None => {
                return Err(ShuffleError::Parse { line: j });
            },
        }
        j = j + 1;
    }
    Ok(out)
}

} // verus!
