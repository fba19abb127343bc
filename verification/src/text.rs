use vstd::prelude::*;
use vstd::string::*;

verus! {

broadcast use vstd::string::group_string_axioms;

/// The characters of `s`, in order.
pub fn chars_of(s: &str) -> (v: Vec<char>)
    ensures
        v@ == s@,
{
    let mut v: Vec<char> = Vec::new();
    for c in it: s.chars()
        invariant
            v@ == it.seq().take(it.index()),
    {
        v.push(c);
    }
    v
}

} // verus!

verus! {

/// Whether `pat` occurs in `s` starting at position `i`.
pub open spec fn occurs_at(s: Seq<char>, pat: Seq<char>, i: int) -> bool {
    0 <= i && i + pat.len() <= s.len() && s.subrange(i, i + pat.len()) == pat
}

/// Position of the leftmost occurrence of `pat` in `s` that starts at or after `from`.
pub open spec fn find_from(s: Seq<char>, pat: Seq<char>, from: int) -> Option<int>
    decreases s.len() - from,
{
    if pat.len() == 0 || from < 0 || from + pat.len() > s.len() {
        None
    } else if occurs_at(s, pat, from) {
        Some(from)
    } else {
        find_from(s, pat, from + 1)
    }
}

/// An occurrence found by `find_from` lies at or after `from` and really is one.
pub proof fn lemma_find_from_found(s: Seq<char>, pat: Seq<char>, from: int)
    ensures
        find_from(s, pat, from) matches Some(i) ==> from <= i && occurs_at(s, pat, i),
    decreases s.len() - from,
{
    if !(pat.len() == 0 || from < 0 || from + pat.len() > s.len()) && !occurs_at(s, pat, from) {
        lemma_find_from_found(s, pat, from + 1);
    }
}

/// The pieces of `s[start..]` between the non-overlapping occurrences of `pat`,
/// searched from left to right (the pieces that `str::split` yields).
pub open spec fn split_from(s: Seq<char>, pat: Seq<char>, start: int) -> Seq<Seq<char>>
    decreases s.len() - start,
{
    if pat.len() == 0 || start < 0 || start > s.len() {
        Seq::empty()
    } else {
        match find_from(s, pat, start) {
            None => seq![s.subrange(start, s.len() as int)],
            Some(i) => {
                proof {
                    lemma_find_from_found(s, pat, start);
                }
                seq![s.subrange(start, i)] + split_from(s, pat, i + pat.len())
            },
        }
    }
}

/// The pieces of `s` between the occurrences of the non-empty separator `pat`.
pub open spec fn split(s: Seq<char>, pat: Seq<char>) -> Seq<Seq<char>> {
    split_from(s, pat, 0)
}

/// Whether `pat` occurs in `s` at position `i`.
fn occurs_at_exec(s: &Vec<char>, pat: &Vec<char>, i: usize) -> (b: bool)
    requires
        i + pat.len() <= s.len(),
    ensures
        b == occurs_at(s@, pat@, i as int),
{
    let mut k: usize = 0;
    while k < pat.len()
        invariant
            k <= pat.len(),
            i + pat.len() <= s.len(),
            forall|j: int| 0 <= j < k ==> s@[i + j] == pat@[j],
        decreases pat.len() - k,
    {
        if s[i + k] != pat[k] {
            assert(s@.subrange(i as int, i + pat.len())[k as int] != pat@[k as int]);
            return false;
        }
        k += 1;
    }
    assert(s@.subrange(i as int, i + pat.len()) =~= pat@);
    true
}

/// Leftmost occurrence of the non-empty `pat` in `s` at or after `from`.
pub fn find_from_exec(s: &Vec<char>, pat: &Vec<char>, from: usize) -> (r: Option<usize>)
    requires
        pat.len() > 0,
        from <= s.len(),
    ensures
        r matches Some(i) ==> find_from(s@, pat@, from as int) == Some(i as int),
        r is None ==> find_from(s@, pat@, from as int) is None,
{
    let mut i = from;
    while pat.len() <= s.len() - i
        invariant
            pat.len() > 0,
            from <= i <= s.len(),
            find_from(s@, pat@, from as int) == find_from(s@, pat@, i as int),
        decreases s.len() - i,
    {
        if occurs_at_exec(s, pat, i) {
            return Some(i);
        }
        i += 1;
    }
    None
}

/// The pieces of `s` between the occurrences of the non-empty separator `pat`,
/// as the half-open ranges `(from, to)` of positions they occupy in `s`.
pub fn split_ranges(s: &Vec<char>, pat: &Vec<char>) -> (r: Vec<(usize, usize)>)
    requires
        pat.len() > 0,
    ensures
        r.len() == split(s@, pat@).len(),
        forall|k: int| #![trigger r[k]] 0 <= k < r.len() ==> r[k].0 <= r[k].1 <= s.len(),
        forall|k: int| #![trigger r[k]]
            0 <= k < r.len() ==> s@.subrange(r[k].0 as int, r[k].1 as int) == split(s@, pat@)[k],
{
    let mut r: Vec<(usize, usize)> = Vec::new();
    let mut start: usize = 0;
    let ghost mut done: Seq<Seq<char>> = Seq::empty();
    loop
        invariant
            pat.len() > 0,
            start <= s.len(),
            done + split_from(s@, pat@, start as int) == split(s@, pat@),
            done.len() == r.len(),
            forall|k: int| #![trigger r[k]] 0 <= k < r.len() ==> r[k].0 <= r[k].1 <= s.len(),
            forall|k: int| #![trigger r[k]]
                0 <= k < r.len() ==> s@.subrange(r[k].0 as int, r[k].1 as int) == done[k],
        decreases s.len() - start,
    {
        match find_from_exec(s, pat, start) {
            None => {
                let ghost piece = s@.subrange(start as int, s.len() as int);
                assert(split_from(s@, pat@, start as int) == seq![piece]);
                let ghost old_r = r@;
                r.push((start, s.len()));
                proof {
                    let old_done = done;
                    done = done.push(piece);
                    assert forall|k: int| #![trigger r[k]] 0 <= k < r.len() implies r[k].0 <= r[k].1
                        <= s.len() && s@.subrange(r[k].0 as int, r[k].1 as int) == done[k] by {
                        if k < old_r.len() {
                            assert(r[k] == old_r[k]);
                            assert(done[k] == old_done[k]);
                        }
                    }
                }
                assert(done =~= split(s@, pat@));
                return r;
            },
            Some(i) => {
                proof {
                    lemma_find_from_found(s@, pat@, start as int);
                }
                let ghost piece = s@.subrange(start as int, i as int);
                let next = i + pat.len();
                assert(split_from(s@, pat@, start as int) == seq![piece] + split_from(
                    s@,
                    pat@,
                    next as int,
                ));
                let ghost old_r = r@;
                r.push((start, i));
                proof {
                    assert(done + split_from(s@, pat@, start as int) =~= done.push(piece)
                        + split_from(s@, pat@, next as int));
                    let old_done = done;
                    done = done.push(piece);
                    assert forall|k: int| #![trigger r[k]] 0 <= k < r.len() implies r[k].0 <= r[k].1
                        <= s.len() && s@.subrange(r[k].0 as int, r[k].1 as int) == done[k] by {
                        if k < old_r.len() {
                            assert(r[k] == old_r[k]);
                            assert(done[k] == old_done[k]);
                        }
                    }
                }
                start = next;
            },
        }
    }
}

} // verus!

verus! {

/// Whether `c` is an ASCII decimal digit.
pub open spec fn is_digit(c: char) -> bool {
    '0' <= c <= '9'
}

/// Value of the decimal digit `c`.
pub open spec fn digit_value(c: char) -> int {
    c as int - '0' as int
}

/// Whether every character of `s` is a decimal digit.
pub open spec fn all_digits(s: Seq<char>) -> bool {
    forall|i: int| 0 <= i < s.len() ==> is_digit(#[trigger] s[i])
}

/// Value of the decimal numeral `s` (most significant digit first).
pub open spec fn digits_value(s: Seq<char>) -> int
    decreases s.len(),
{
    if s.len() == 0 {
        0
    } else {
        digits_value(s.drop_last()) * 10 + digit_value(s.last())
    }
}

/// What `str::parse::<u32>` gives back for `s`: an optional leading `+`, then
/// at least one decimal digit, the whole value fitting in 32 bits.
pub open spec fn parse_u32(s: Seq<char>) -> Option<u32> {
    let digits = if s.len() > 0 && s[0] == '+' {
        s.drop_first()
    } else {
        s
    };
    if digits.len() > 0 && all_digits(digits) && digits_value(digits) <= u32::MAX {
        Some(digits_value(digits) as u32)
    } else {
        None
    }
}

/// A numeral never has a negative value, and a prefix of it never exceeds it.
pub proof fn lemma_digits_value_prefix(s: Seq<char>, i: int)
    requires
        all_digits(s),
        0 <= i <= s.len(),
    ensures
        0 <= digits_value(s.take(i)) <= digits_value(s),
    decreases s.len(),
{
    if s.len() > 0 {
        let p = s.drop_last();
        assert(all_digits(p)) by {
            assert forall|j: int| 0 <= j < p.len() implies is_digit(#[trigger] p[j]) by {
                assert(p[j] == s[j]);
            }
        }
        assert(is_digit(s[s.len() - 1]));
        if i == s.len() {
            assert(s.take(i) =~= s);
            lemma_digits_value_prefix(p, p.len() as int);
            assert(p.take(p.len() as int) =~= p);
        } else {
            assert(s.take(i) =~= p.take(i));
            lemma_digits_value_prefix(p, i);
            lemma_digits_value_prefix(p, p.len() as int);
            assert(p.take(p.len() as int) =~= p);
        }
    } else {
        assert(s.take(i) =~= s);
    }
}

/// Parses the characters `s[from..to]` as `str::parse::<u32>` does.
pub fn parse_u32_exec(s: &Vec<char>, from: usize, to: usize) -> (r: Option<u32>)
    requires
        from <= to <= s.len(),
    ensures
        r == parse_u32(s@.subrange(from as int, to as int)),
{
    let ghost whole = s@.subrange(from as int, to as int);
    let mut start = from;
    if from < to && s[from] == '+' {
        start = from + 1;
    }
    let ghost digits = s@.subrange(start as int, to as int);
    assert(digits =~= (if whole.len() > 0 && whole[0] == '+' {
        whole.drop_first()
    } else {
        whole
    }));
    if start == to {
        return None;
    }
    let mut acc: u64 = 0;
    let mut i = start;
    while i < to
        invariant
            start <= i <= to <= s.len(),
            digits == s@.subrange(start as int, to as int),
            whole == s@.subrange(from as int, to as int),
            digits == (if whole.len() > 0 && whole[0] == '+' {
                whole.drop_first()
            } else {
                whole
            }),
            all_digits(s@.subrange(start as int, i as int)),
            acc == digits_value(s@.subrange(start as int, i as int)),
            acc <= u32::MAX,
        decreases to - i,
    {
        let c = s[i];
        let ghost before = s@.subrange(start as int, i as int);
        let ghost after = s@.subrange(start as int, i + 1);
        assert(after.drop_last() =~= before);
        assert(after.last() == c);
        assert(digits.take(i - start + 1) =~= after);
        if !('0' <= c && c <= '9') {
            assert(!is_digit(digits[i - start]));
            return None;
        }
        let d = (c as u32 - '0' as u32) as u64;
        acc = acc * 10 + d;
        assert(all_digits(after)) by {
            assert forall|j: int| 0 <= j < after.len() implies is_digit(#[trigger] after[j]) by {
                if j < before.len() {
                    assert(after[j] == before[j]);
                }
            }
        }
        if acc > 0xffff_ffffu64 {
            proof {
                if all_digits(digits) {
                    lemma_digits_value_prefix(digits, i - start + 1);
                }
            }
            return None;
        }
        i += 1;
    }
    assert(s@.subrange(start as int, i as int) =~= digits);
    Some(acc as u32)
}

} // verus!

verus! {

/// Whether `c` is white space as `char::is_whitespace` decides it: the
/// characters with the Unicode `White_Space` property.
pub open spec fn is_white_space(c: char) -> bool {
    ||| c == ' '
    ||| '\u{9}' <= c <= '\u{d}'
    ||| c == '\u{85}'
    ||| c == '\u{a0}'
    ||| c == '\u{1680}'
    ||| '\u{2000}' <= c <= '\u{200a}'
    ||| c == '\u{2028}'
    ||| c == '\u{2029}'
    ||| c == '\u{202f}'
    ||| c == '\u{205f}'
    ||| c == '\u{3000}'
}

/// The white-space characters are those of Unicode's `White_Space` property
/// (the space, the ASCII controls tab to carriage return, next line, no-break
/// space, ogham space mark, the en quad to hair space block, the line and
/// paragraph separators, narrow no-break space, medium mathematical space and
/// ideographic space); digits and the protocol's punctuation are not.
pub proof fn white_space_characters()
    ensures
        is_white_space(' '),
        is_white_space('\t'),
        is_white_space('\n'),
        is_white_space('\u{b}'),
        is_white_space('\u{c}'),
        is_white_space('\r'),
        is_white_space('\u{85}'),
        is_white_space('\u{a0}'),
        is_white_space('\u{1680}'),
        forall|c: char| '\u{2000}' <= c <= '\u{200a}' ==> is_white_space(c),
        is_white_space('\u{2028}'),
        is_white_space('\u{2029}'),
        is_white_space('\u{202f}'),
        is_white_space('\u{205f}'),
        is_white_space('\u{3000}'),
        forall|c: char| '0' <= c <= '9' ==> !is_white_space(c),
        !is_white_space('|'),
        !is_white_space(':'),
        !is_white_space(','),
        !is_white_space('+'),
        !is_white_space('-'),
        !is_white_space('.'),
        !is_white_space('\u{0}'),
        !is_white_space('\u{200b}'),
        !is_white_space('\u{feff}'),
{
}

/// Number of white-space characters at the start of `s`.
pub open spec fn leading_white(s: Seq<char>) -> nat
    decreases s.len(),
{
    if s.len() > 0 && is_white_space(s[0]) {
        1 + leading_white(s.drop_first())
    } else {
        0
    }
}

/// Number of white-space characters at the end of `s`.
pub open spec fn trailing_white(s: Seq<char>) -> nat
    decreases s.len(),
{
    if s.len() > 0 && is_white_space(s.last()) {
        1 + trailing_white(s.drop_last())
    } else {
        0
    }
}

/// `s` without its leading and trailing white space (what `str::trim` gives back).
pub open spec fn trim(s: Seq<char>) -> Seq<char> {
    let rest = s.subrange(leading_white(s) as int, s.len() as int);
    rest.subrange(0, rest.len() - trailing_white(rest))
}

/// Decides `char::is_whitespace`.
pub fn is_white_space_exec(c: char) -> (b: bool)
    ensures
        b == is_white_space(c),
{
    c == ' ' || ('\u{9}' <= c && c <= '\u{d}') || c == '\u{85}' || c == '\u{a0}' || c
        == '\u{1680}' || ('\u{2000}' <= c && c <= '\u{200a}') || c == '\u{2028}' || c
        == '\u{2029}' || c == '\u{202f}' || c == '\u{205f}' || c == '\u{3000}'
}

/// The range `(a, b)` of positions that `trim(s)` occupies in `s`.
pub fn trim_range(s: &Vec<char>) -> (r: (usize, usize))
    ensures
        r.0 <= r.1 <= s.len(),
        s@.subrange(r.0 as int, r.1 as int) == trim(s@),
{
    let n = s.len();
    let mut a: usize = 0;
    assert(s@.subrange(0, n as int) =~= s@);
    while a < n && is_white_space_exec(s[a])
        invariant
            a <= n == s.len(),
            leading_white(s@) == a + leading_white(s@.subrange(a as int, n as int)),
        decreases n - a,
    {
        assert(s@.subrange(a as int, n as int).drop_first() =~= s@.subrange(a + 1, n as int));
        a += 1;
    }
    assert(leading_white(s@.subrange(a as int, n as int)) == 0);
    let ghost rest = s@.subrange(a as int, n as int);
    let mut b: usize = n;
    assert(rest.subrange(0, rest.len() as int) =~= rest);
    while b > a && is_white_space_exec(s[b - 1])
        invariant
            a <= b <= n == s.len(),
            rest == s@.subrange(a as int, n as int),
            trailing_white(rest) == (n - b) + trailing_white(s@.subrange(a as int, b as int)),
        decreases b - a,
    {
        assert(s@.subrange(a as int, b as int).drop_last() =~= s@.subrange(a as int, b - 1));
        b -= 1;
    }
    assert(trailing_white(s@.subrange(a as int, b as int)) == 0);
    assert(rest.subrange(0, rest.len() - trailing_white(rest)) =~= s@.subrange(a as int, b as int));
    (a, b)
}

/// Whether `s[from..to]` is exactly `word`.
pub fn range_is(s: &Vec<char>, from: usize, to: usize, word: &Vec<char>) -> (b: bool)
    requires
        from <= to <= s.len(),
    ensures
        b == (s@.subrange(from as int, to as int) == word@),
{
    if to - from != word.len() {
        return false;
    }
    let mut k: usize = 0;
    while k < word.len()
        invariant
            from <= to <= s.len(),
            to - from == word.len(),
            k <= word.len(),
            forall|j: int| 0 <= j < k ==> s@[from + j] == word@[j],
        decreases word.len() - k,
    {
        if s[from + k] != word[k] {
            assert(s@.subrange(from as int, to as int)[k as int] != word@[k as int]);
            return false;
        }
        k += 1;
    }
    assert(s@.subrange(from as int, to as int) =~= word@);
    true
}

/// The characters `s[from..to]`.
pub fn copy_range(s: &Vec<char>, from: usize, to: usize) -> (v: Vec<char>)
    requires
        from <= to <= s.len(),
    ensures
        v@ == s@.subrange(from as int, to as int),
{
    let mut v: Vec<char> = Vec::new();
    let mut i = from;
    while i < to
        invariant
            from <= i <= to <= s.len(),
            v@ == s@.subrange(from as int, i as int),
        decreases to - i,
    {
        v.push(s[i]);
        assert(v@ =~= s@.subrange(from as int, i + 1));
        i += 1;
    }
    v
}

} // verus!

verus! {

/// Splitting by a non-empty separator always yields at least one piece.
pub proof fn lemma_split_nonempty(s: Seq<char>, pat: Seq<char>)
    requires
        pat.len() > 0,
    ensures
        split(s, pat).len() >= 1,
{
    assert(split(s, pat) == split_from(s, pat, 0));
}

/// The `k`-th piece of `s` split by `pat`, as an owned string cut out of `text`
/// (whose characters are `s`).
pub fn piece_string(text: &str, s: &Vec<char>, ranges: &Vec<(usize, usize)>, k: usize) -> (p: String)
    requires
        s@ == text@,
        k < ranges.len(),
        ranges[k as int].0 <= ranges[k as int].1 <= s.len(),
    ensures
        p@ == s@.subrange(ranges[k as int].0 as int, ranges[k as int].1 as int),
{
    let (from, to) = ranges[k];
    text.substring_char(from, to).to_owned()
}

} // verus!

verus! {

/// Positions with no occurrence can be skipped when searching.
pub proof fn lemma_find_from_skip(s: Seq<char>, pat: Seq<char>, from: int, k: int)
    requires
        pat.len() > 0,
        0 <= from <= k,
        forall|i: int| from <= i < k ==> !occurs_at(s, pat, i),
    ensures
        find_from(s, pat, from) == find_from(s, pat, k),
    decreases k - from,
{
    if from < k {
        if from + pat.len() > s.len() {
            lemma_find_from_found(s, pat, k);
        } else {
            lemma_find_from_skip(s, pat, from + 1, k);
        }
    }
}

/// Searching the part `q` of `p + q` finds what searching `q` alone finds, shifted by `p`.
pub proof fn lemma_find_from_shift(p: Seq<char>, q: Seq<char>, pat: Seq<char>, j: int)
    requires
        pat.len() > 0,
        0 <= j <= q.len(),
    ensures
        find_from(p + q, pat, p.len() + j) == (match find_from(q, pat, j) {
            Some(i) => Some(i + p.len()),
            None => None::<int>,
        }),
    decreases q.len() - j,
{
    let s = p + q;
    if j + pat.len() <= q.len() {
        assert(s.subrange(p.len() + j, p.len() + j + pat.len()) =~= q.subrange(j, j + pat.len()));
        if !occurs_at(q, pat, j) {
            lemma_find_from_shift(p, q, pat, j + 1);
        }
    }
}

/// Splitting the part `q` of `p + q` gives what splitting `q` alone gives.
pub proof fn lemma_split_from_shift(p: Seq<char>, q: Seq<char>, pat: Seq<char>, j: int)
    requires
        pat.len() > 0,
        0 <= j <= q.len(),
    ensures
        split_from(p + q, pat, p.len() + j) == split_from(q, pat, j),
    decreases q.len() - j,
{
    let s = p + q;
    lemma_find_from_shift(p, q, pat, j);
    lemma_find_from_found(q, pat, j);
    match find_from(q, pat, j) {
        None => {
            assert(s.subrange(p.len() + j, s.len() as int) =~= q.subrange(j, q.len() as int));
        },
        Some(i) => {
            assert(s.subrange(p.len() + j, p.len() + i) =~= q.subrange(j, i));
            lemma_split_from_shift(p, q, pat, i + pat.len());
        },
    }
}

/// A text in which the separator does not occur is a single piece.
pub proof fn lemma_split_single(s: Seq<char>, pat: Seq<char>)
    requires
        pat.len() > 0,
        find_from(s, pat, 0) is None,
    ensures
        split(s, pat) == seq![s],
{
    assert(s.subrange(0, s.len() as int) =~= s);
}

/// A text without the separator's first character holds no occurrence of it.
pub proof fn lemma_no_occurrence(s: Seq<char>, pat: Seq<char>)
    requires
        pat.len() > 0,
        forall|i: int| 0 <= i < s.len() ==> s[i] != pat[0],
    ensures
        find_from(s, pat, 0) is None,
{
    assert forall|i: int| 0 <= i < s.len() implies !occurs_at(s, pat, i) by {
        if occurs_at(s, pat, i) {
            assert(s.subrange(i, i + pat.len())[0] == s[i]);
        }
    }
    lemma_find_from_skip(s, pat, 0, s.len() as int);
}

/// A first piece free of the separator's first character is cut off at the
/// first separator.
pub proof fn lemma_split_first(a: Seq<char>, pat: Seq<char>, rest: Seq<char>)
    requires
        pat.len() > 0,
        forall|i: int| 0 <= i < a.len() ==> a[i] != pat[0],
    ensures
        split(a + pat + rest, pat) == seq![a] + split(rest, pat),
{
    let s = a + pat + rest;
    assert forall|i: int| 0 <= i < a.len() implies !occurs_at(s, pat, i) by {
        if occurs_at(s, pat, i) {
            assert(s.subrange(i, i + pat.len())[0] == s[i]);
            assert(s[i] == a[i]);
        }
    }
    assert(s.subrange(a.len() as int, (a.len() + pat.len()) as int) =~= pat);
    lemma_find_from_skip(s, pat, 0, a.len() as int);
    assert(find_from(s, pat, 0) == Some(a.len() as int));
    assert(s.subrange(0, a.len() as int) =~= a);
    assert(s =~= (a + pat) + rest);
    lemma_split_from_shift(a + pat, rest, pat, 0);
    assert(split_from(s, pat, 0) == seq![a] + split_from(s, pat, (a.len() + pat.len()) as int));
}

} // verus!

verus! {

/// The pieces joined back together with `sep` between neighbours.
pub open spec fn join(pieces: Seq<Seq<char>>, sep: Seq<char>) -> Seq<char>
    decreases pieces.len(),
{
    if pieces.len() == 0 {
        Seq::empty()
    } else if pieces.len() == 1 {
        pieces[0]
    } else {
        pieces[0] + sep + join(pieces.drop_first(), sep)
    }
}

proof fn lemma_join_split_from(s: Seq<char>, pat: Seq<char>, start: int)
    requires
        pat.len() > 0,
        0 <= start <= s.len(),
    ensures
        split_from(s, pat, start).len() >= 1,
        join(split_from(s, pat, start), pat) == s.subrange(start, s.len() as int),
    decreases s.len() - start,
{
    lemma_find_from_found(s, pat, start);
    match find_from(s, pat, start) {
        None => {},
        Some(i) => {
            let next = i + pat.len();
            lemma_join_split_from(s, pat, next);
            let rest = split_from(s, pat, next);
            let pieces = seq![s.subrange(start, i)] + rest;
            assert(pieces.drop_first() =~= rest);
            assert(pieces[0] == s.subrange(start, i));
            assert(s.subrange(i, next) == pat);
            assert(s.subrange(start, s.len() as int) =~= s.subrange(start, i) + s.subrange(i, next)
                + s.subrange(next, s.len() as int));
        },
    }
}

/// Splitting loses nothing: joining the pieces of `s` back together with the
/// separator gives `s` again.
pub proof fn split_then_join(s: Seq<char>, pat: Seq<char>)
    requires
        pat.len() > 0,
    ensures
        join(split(s, pat), pat) == s,
{
    lemma_join_split_from(s, pat, 0);
    assert(s.subrange(0, s.len() as int) =~= s);
}

} // verus!

verus! {

/// Whether every character of `s` is white space.
pub open spec fn all_white(s: Seq<char>) -> bool {
    forall|i: int| 0 <= i < s.len() ==> is_white_space(#[trigger] s[i])
}

/// Whether `s` neither starts nor ends with white space.
pub open spec fn unpadded(s: Seq<char>) -> bool {
    s.len() == 0 || (!is_white_space(s[0]) && !is_white_space(s.last()))
}

proof fn lemma_leading_white_concat(w: Seq<char>, u: Seq<char>)
    requires
        all_white(w),
    ensures
        leading_white(w + u) == w.len() + leading_white(u),
    decreases w.len(),
{
    if w.len() > 0 {
        assert((w + u)[0] == w[0]);
        assert((w + u).drop_first() =~= w.drop_first() + u);
        assert(all_white(w.drop_first())) by {
            assert forall|i: int| 0 <= i < w.drop_first().len() implies is_white_space(
                #[trigger] w.drop_first()[i],
            ) by {
                assert(w.drop_first()[i] == w[i + 1]);
            }
        }
        lemma_leading_white_concat(w.drop_first(), u);
    } else {
        assert(w + u =~= u);
    }
}

proof fn lemma_trailing_white_concat(u: Seq<char>, w: Seq<char>)
    requires
        all_white(w),
    ensures
        trailing_white(u + w) == w.len() + trailing_white(u),
    decreases w.len(),
{
    if w.len() > 0 {
        assert((u + w).last() == w.last());
        assert((u + w).drop_last() =~= u + w.drop_last());
        assert(all_white(w.drop_last())) by {
            assert forall|i: int| 0 <= i < w.drop_last().len() implies is_white_space(
                #[trigger] w.drop_last()[i],
            ) by {
                assert(w.drop_last()[i] == w[i]);
            }
        }
        lemma_trailing_white_concat(u, w.drop_last());
    } else {
        assert(u + w =~= u);
    }
}

/// Trimming removes exactly the white space put around a text that neither
/// starts nor ends with white space; such a text is left as it is.
pub proof fn trim_removes_padding(before: Seq<char>, t: Seq<char>, after: Seq<char>)
    requires
        all_white(before),
        all_white(after),
        unpadded(t),
    ensures
        trim(before + t + after) == t,
        trim(t) == t,
{
    let s = before + t + after;
    assert(s =~= before + (t + after));
    lemma_leading_white_concat(before, t + after);
    if t.len() > 0 {
        assert((t + after)[0] == t[0]);
        assert(leading_white(t + after) == 0);
        let rest = s.subrange(before.len() as int, s.len() as int);
        assert(rest =~= t + after);
        lemma_trailing_white_concat(t, after);
        assert(trailing_white(t) == 0);
        assert(rest.subrange(0, rest.len() - trailing_white(rest)) =~= t);
        assert(leading_white(t) == 0);
        assert(t.subrange(0, t.len() as int) =~= t);
    } else {
        assert(t + after =~= Seq::<char>::empty() + after);
        lemma_leading_white_concat(after, Seq::<char>::empty());
        assert(after + Seq::<char>::empty() =~= after);
        assert(leading_white(t + after) == after.len());
        let rest = s.subrange(s.len() as int, s.len() as int);
        assert(rest.len() == 0);
        assert(rest.subrange(0, rest.len() - trailing_white(rest)) =~= t);
        assert(t.subrange(0, 0) =~= t);
    }
}

} // verus!
