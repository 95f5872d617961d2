//! Byte-level scanning primitives shared by the header parser and the body
//! resolver: first-occurrence search, ASCII whitespace trimming, and decimal
//! parsing of the status-code token.

use vstd::prelude::*;

verus! {

/// Index of the first occurrence of `b` in `s`, if any.
pub open spec fn find_byte(s: Seq<u8>, b: u8) -> Option<int>
    decreases s.len(),
{
    if s.len() == 0 {
        None
    } else if s[0] == b {
        Some(0)
    } else {
        match find_byte(s.drop_first(), b) {
            Some(i) => Some(i + 1),
            None => None,
        }
    }
}

/// `find_byte` points at an occurrence of `b` that no earlier index matches,
/// and returns `None` exactly when `b` does not occur.
pub proof fn lemma_find_byte(s: Seq<u8>, b: u8)
    ensures
        match find_byte(s, b) {
            Some(i) => 0 <= i < s.len() && s[i] == b && (forall|k: int| 0 <= k < i ==> s[k] != b),
            None => forall|k: int| 0 <= k < s.len() ==> s[k] != b,
        },
    decreases s.len(),
{
    if s.len() == 0 {
    } else if s[0] == b {
    } else {
        lemma_find_byte(s.drop_first(), b);
        match find_byte(s.drop_first(), b) {
            Some(j) => {
                assert(s.drop_first()[j] == s[j + 1]);
                assert forall|k: int| 0 <= k < j + 1 implies s[k] != b by {
                    if k > 0 {
                        assert(s.drop_first()[k - 1] == s[k]);
                    }
                }
            },
            None => {
                assert forall|k: int| 0 <= k < s.len() implies s[k] != b by {
                    if k > 0 {
                        assert(s.drop_first()[k - 1] == s[k]);
                    }
                }
            },
        }
    }
}

/// Converse direction: an occurrence with no earlier occurrence is the one
/// `find_byte` returns.
pub proof fn lemma_find_byte_at(s: Seq<u8>, b: u8, i: int)
    requires
        0 <= i < s.len(),
        s[i] == b,
        forall|k: int| 0 <= k < i ==> s[k] != b,
    ensures
        find_byte(s, b) == Some(i),
{
    lemma_find_byte(s, b);
}

/// Converse direction: if `b` occurs nowhere, `find_byte` returns `None`.
pub proof fn lemma_find_byte_none(s: Seq<u8>, b: u8)
    requires
        forall|k: int| 0 <= k < s.len() ==> s[k] != b,
    ensures
        find_byte(s, b) is None,
{
    lemma_find_byte(s, b);
}

/// First index in `v[from..to]` holding `target`, scanning left to right.
pub fn find_from(v: &Vec<u8>, target: u8, from: usize, to: usize) -> (r: Option<usize>)
    requires
        from <= to <= v@.len(),
    ensures
        match r {
            Some(i) => from <= i < to && v@[i as int] == target && (forall|k: int|
                from <= k < i ==> v@[k] != target),
            None => forall|k: int| from <= k < to ==> v@[k] != target,
        },
{
    let mut i: usize = from;
    while i < to
        invariant
            from <= i <= to <= v@.len(),
            forall|k: int| from <= k < i ==> v@[k] != target,
        decreases to - i,
    {
        if v[i] == target {
            return Some(i);
        }
        i = i + 1;
    }
    None
}

/// ASCII whitespace, as trimmed from the metadata field: tab, line feed,
/// vertical tab, form feed, carriage return, space.
pub open spec fn is_wsp(b: u8) -> bool {
    b == 32 || b == 9 || b == 10 || b == 11 || b == 12 || b == 13
}

/// `s` without its leading ASCII whitespace.
pub open spec fn trim_start_spec(s: Seq<u8>) -> Seq<u8>
    decreases s.len(),
{
    if s.len() > 0 && is_wsp(s[0]) {
        trim_start_spec(s.drop_first())
    } else {
        s
    }
}

/// `s` without its trailing ASCII whitespace.
pub open spec fn trim_end_spec(s: Seq<u8>) -> Seq<u8>
    decreases s.len(),
{
    if s.len() > 0 && is_wsp(s.last()) {
        trim_end_spec(s.drop_last())
    } else {
        s
    }
}

/// `s` with both leading and trailing ASCII whitespace removed.
pub open spec fn trim_spec(s: Seq<u8>) -> Seq<u8> {
    trim_end_spec(trim_start_spec(s))
}

/// Whether `b` is ASCII whitespace.
pub fn is_wsp_byte(b: u8) -> (r: bool)
    ensures
        r == is_wsp(b),
{
    b == 32 || b == 9 || b == 10 || b == 11 || b == 12 || b == 13
}

/// Narrows `[from, to)` to the bounds of the subrange left after trimming
/// ASCII whitespace from both ends of `v[from..to]`.
pub fn trim_range(v: &Vec<u8>, from: usize, to: usize) -> (r: (usize, usize))
    requires
        from <= to <= v@.len(),
    ensures
        from <= r.0 <= r.1 <= to,
        v@.subrange(r.0 as int, r.1 as int) == trim_spec(v@.subrange(from as int, to as int)),
{
    let ghost s = v@.subrange(from as int, to as int);
    let mut a: usize = from;
    while a < to && is_wsp_byte(v[a])
        invariant
            from <= a <= to <= v@.len(),
            s == v@.subrange(from as int, to as int),
            trim_start_spec(s) == trim_start_spec(v@.subrange(a as int, to as int)),
        decreases to - a,
    {
        proof {
            let t = v@.subrange(a as int, to as int);
            assert(t[0] == v@[a as int]);
            assert(t.drop_first() =~= v@.subrange(a as int + 1, to as int));
        }
        a = a + 1;
    }
    proof {
        let t = v@.subrange(a as int, to as int);
        if a < to {
            assert(t[0] == v@[a as int]);
        }
        assert(trim_start_spec(t) == t);
        assert(trim_start_spec(s) == v@.subrange(a as int, to as int));
    }
    let mut z: usize = to;
    while z > a && is_wsp_byte(v[z - 1])
        invariant
            from <= a <= z <= to <= v@.len(),
            trim_end_spec(v@.subrange(a as int, to as int)) == trim_end_spec(
                v@.subrange(a as int, z as int),
            ),
        decreases z,
    {
        proof {
            let u = v@.subrange(a as int, z as int);
            assert(u.last() == v@[z - 1]);
            assert(u.drop_last() =~= v@.subrange(a as int, z as int - 1));
        }
        z = z - 1;
    }
    proof {
        let u = v@.subrange(a as int, z as int);
        if z > a {
            assert(u.last() == v@[z - 1]);
        }
        assert(trim_end_spec(u) == u);
    }
    (a, z)
}

proof fn lemma_trim_start_push(s: Seq<u8>, c: u8)
    ensures
        trim_start_spec(s).len() > 0 ==> trim_start_spec(s.push(c)) == trim_start_spec(s).push(c),
        trim_start_spec(s).len() == 0 ==> trim_start_spec(s.push(c)) == trim_start_spec(seq![c]),
    decreases s.len(),
{
    if s.len() == 0 {
        assert(s.push(c) =~= seq![c]);
    } else if is_wsp(s[0]) {
        lemma_trim_start_push(s.drop_first(), c);
        assert(s.push(c)[0] == s[0]);
        assert(s.push(c).drop_first() =~= s.drop_first().push(c));
    } else {
        assert(s.push(c)[0] == s[0]);
        assert(trim_start_spec(s.push(c)) == s.push(c));
    }
}

/// Appending a whitespace byte does not change the trimmed value.
pub proof fn lemma_trim_push_wsp(s: Seq<u8>, c: u8)
    requires
        is_wsp(c),
    ensures
        trim_spec(s.push(c)) == trim_spec(s),
{
    lemma_trim_start_push(s, c);
    if trim_start_spec(s).len() > 0 {
        let t = trim_start_spec(s);
        assert(t.push(c).last() == c);
        assert(t.push(c).drop_last() =~= t);
    } else {
        assert(seq![c].drop_first() =~= Seq::<u8>::empty());
        assert(trim_start_spec(Seq::<u8>::empty()) == Seq::<u8>::empty());
        assert(trim_start_spec(seq![c]) == Seq::<u8>::empty());
        assert(trim_end_spec(Seq::<u8>::empty()) == Seq::<u8>::empty());
    }
}

proof fn lemma_trim_start_no_byte(s: Seq<u8>, c: u8)
    requires
        forall|k: int| 0 <= k < s.len() ==> s[k] != c,
    ensures
        forall|k: int| 0 <= k < trim_start_spec(s).len() ==> trim_start_spec(s)[k] != c,
    decreases s.len(),
{
    if s.len() > 0 && is_wsp(s[0]) {
        assert forall|k: int| 0 <= k < s.drop_first().len() implies s.drop_first()[k] != c by {
            assert(s.drop_first()[k] == s[k + 1]);
        }
        lemma_trim_start_no_byte(s.drop_first(), c);
        assert(trim_start_spec(s) == trim_start_spec(s.drop_first()));
        assert forall|k: int| 0 <= k < trim_start_spec(s).len() implies trim_start_spec(s)[k]
            != c by {
            assert(trim_start_spec(s.drop_first())[k] != c);
        }
    }
}

proof fn lemma_trim_end_no_byte(s: Seq<u8>, c: u8)
    requires
        forall|k: int| 0 <= k < s.len() ==> s[k] != c,
    ensures
        forall|k: int| 0 <= k < trim_end_spec(s).len() ==> trim_end_spec(s)[k] != c,
    decreases s.len(),
{
    if s.len() > 0 && is_wsp(s.last()) {
        assert forall|k: int| 0 <= k < s.drop_last().len() implies s.drop_last()[k] != c by {
            assert(s.drop_last()[k] == s[k]);
        }
        lemma_trim_end_no_byte(s.drop_last(), c);
        assert(trim_end_spec(s) == trim_end_spec(s.drop_last()));
        assert forall|k: int| 0 <= k < trim_end_spec(s).len() implies trim_end_spec(s)[k] != c by {
            assert(trim_end_spec(s.drop_last())[k] != c);
        }
    }
}

/// Trimming only removes bytes: a byte absent from `s` is absent from its
/// trimmed value.
pub proof fn lemma_trim_no_byte(s: Seq<u8>, c: u8)
    requires
        forall|k: int| 0 <= k < s.len() ==> s[k] != c,
    ensures
        forall|k: int| 0 <= k < trim_spec(s).len() ==> trim_spec(s)[k] != c,
{
    lemma_trim_start_no_byte(s, c);
    lemma_trim_end_no_byte(trim_start_spec(s), c);
}

proof fn lemma_trim_start_ascii(s: Seq<u8>)
    requires
        forall|k: int| 0 <= k < s.len() ==> s[k] < 0x80,
    ensures
        forall|k: int| 0 <= k < trim_start_spec(s).len() ==> trim_start_spec(s)[k] < 0x80,
    decreases s.len(),
{
    if s.len() > 0 && is_wsp(s[0]) {
        assert forall|k: int| 0 <= k < s.drop_first().len() implies s.drop_first()[k] < 0x80 by {
            assert(s.drop_first()[k] == s[k + 1]);
        }
        lemma_trim_start_ascii(s.drop_first());
        assert(trim_start_spec(s) == trim_start_spec(s.drop_first()));
        assert forall|k: int| 0 <= k < trim_start_spec(s).len() implies trim_start_spec(s)[k]
            < 0x80 by {
            assert(trim_start_spec(s.drop_first())[k] < 0x80);
        }
    }
}

proof fn lemma_trim_end_ascii(s: Seq<u8>)
    requires
        forall|k: int| 0 <= k < s.len() ==> s[k] < 0x80,
    ensures
        forall|k: int| 0 <= k < trim_end_spec(s).len() ==> trim_end_spec(s)[k] < 0x80,
    decreases s.len(),
{
    if s.len() > 0 && is_wsp(s.last()) {
        assert forall|k: int| 0 <= k < s.drop_last().len() implies s.drop_last()[k] < 0x80 by {
            assert(s.drop_last()[k] == s[k]);
        }
        lemma_trim_end_ascii(s.drop_last());
        assert(trim_end_spec(s) == trim_end_spec(s.drop_last()));
        assert forall|k: int| 0 <= k < trim_end_spec(s).len() implies trim_end_spec(s)[k]
            < 0x80 by {
            assert(trim_end_spec(s.drop_last())[k] < 0x80);
        }
    }
}

/// Trimming ASCII text leaves ASCII text.
pub proof fn lemma_trim_ascii(s: Seq<u8>)
    requires
        forall|k: int| 0 <= k < s.len() ==> s[k] < 0x80,
    ensures
        forall|k: int| 0 <= k < trim_spec(s).len() ==> trim_spec(s)[k] < 0x80,
{
    lemma_trim_start_ascii(s);
    lemma_trim_end_ascii(trim_start_spec(s));
}

/// ASCII decimal digit.
pub open spec fn is_digit(b: u8) -> bool {
    48 <= b && b <= 57
}

/// All bytes of `s` are ASCII decimal digits.
pub open spec fn all_digits(s: Seq<u8>) -> bool {
    forall|k: int| 0 <= k < s.len() ==> is_digit(#[trigger] s[k])
}

/// Numeric value of a sequence of ASCII digits, most significant first.
pub open spec fn digits_value(s: Seq<u8>) -> int
    decreases s.len(),
{
    if s.len() == 0 {
        0
    } else {
        digits_value(s.drop_last()) * 10 + (s.last() - 48)
    }
}

/// Whether `s` is a decimal numeral for an unsigned integer that fits in a
/// byte: nonempty, all digits, value at most 255.
pub open spec fn parses_as_u8(s: Seq<u8>) -> bool {
    s.len() > 0 && all_digits(s) && digits_value(s) <= 255
}

/// Parses `v[0..end]` as a decimal status code that fits in a byte,
/// accepting leading zeros, rejecting anything else.
pub fn parse_code(v: &Vec<u8>, end: usize) -> (r: Option<u8>)
    requires
        end <= v@.len(),
    ensures
        ({
            let tok = v@.subrange(0, end as int);
            match r {
                Some(c) => parses_as_u8(tok) && c == digits_value(tok),
                None => !parses_as_u8(tok),
            }
        }),
{
    let ghost tok = v@.subrange(0, end as int);
    if end == 0 {
        return None;
    }
    let mut acc: u32 = 0;
    let mut k: usize = 0;
    while k < end
        invariant
            0 <= k <= end <= v@.len(),
            tok == v@.subrange(0, end as int),
            all_digits(tok.take(k as int)),
            0 <= digits_value(tok.take(k as int)),
            digits_value(tok.take(k as int)) <= 255 ==> acc == digits_value(tok.take(k as int)),
            digits_value(tok.take(k as int)) > 255 ==> 255 < acc,
            acc <= 2559,
        decreases end - k,
    {
        let b = v[k];
        if b < 48 || b > 57 {
            proof {
                assert(tok[k as int] == v@[k as int]);
                assert(!is_digit(tok[k as int]));
            }
            return None;
        }
        let d: u32 = (b - 48) as u32;
        proof {
            assert(tok.take(k as int + 1).drop_last() =~= tok.take(k as int));
            assert(tok.take(k as int + 1).last() == tok[k as int]);
            assert(tok[k as int] == v@[k as int]);
        }
        if acc <= 255 {
            acc = acc * 10 + d;
        }
        k = k + 1;
    }
    proof {
        assert(tok.take(end as int) =~= tok);
    }
    if acc > 255 {
        return None;
    }
    Some(acc as u8)
}

} // verus!
