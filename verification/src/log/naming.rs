//! Segment files are named by their base offset: `<offset>.store` and
//! `<offset>.index`. Recovering a log starts from the offsets that the names
//! in its directory carry.
use vstd::prelude::*;

verus! {

/// The ASCII digit `b`.
pub open spec fn is_digit(b: u8) -> bool {
    48 <= b <= 57
}

/// The decimal number written by the digits `s`.
pub open spec fn decimal(s: Seq<u8>) -> nat
    decreases s.len(),
{
    if s.len() == 0 {
        0
    } else {
        decimal(s.drop_last()) * 10 + (s.last() - 48) as nat
    }
}

/// The `u64` written by `s` as Rust reads one: an optional `+`, then one or
/// more ASCII digits whose value fits.
pub open spec fn parse_u64(s: Seq<u8>) -> Option<u64> {
    digits_value(
        if s.len() > 0 && s[0] == 43 {
            s.drop_first()
        } else {
            s
        },
    )
}

/// The `u64` written by the digits `d`, if they are one or more ASCII digits
/// whose value fits.
pub open spec fn digits_value(d: Seq<u8>) -> Option<u64> {
    if d.len() > 0 && (forall|i: int| 0 <= i < d.len() ==> is_digit(#[trigger] d[i])) && decimal(d)
        <= u64::MAX {
        Some(decimal(d) as u64)
    } else {
        None
    }
}

/// `.store`
pub open spec fn store_suffix() -> Seq<u8> {
    seq![46u8, 115u8, 116u8, 111u8, 114u8, 101u8]
}

/// `.index`
pub open spec fn index_suffix() -> Seq<u8> {
    seq![46u8, 105u8, 110u8, 100u8, 101u8, 120u8]
}

/// The name ends with `suffix`.
pub open spec fn ends_with(name: Seq<u8>, suffix: Seq<u8>) -> bool {
    name.len() >= suffix.len() && name.subrange(name.len() - suffix.len(), name.len() as int)
        == suffix
}

/// The base offset a file name carries: the number before `.store` (or else
/// before `.index`), if there is one.
pub open spec fn offset_of_name(name: Seq<u8>) -> Option<u64> {
    if ends_with(name, store_suffix()) {
        parse_u64(name.subrange(0, name.len() - 6))
    } else if ends_with(name, index_suffix()) {
        parse_u64(name.subrange(0, name.len() - 6))
    } else {
        None
    }
}

proof fn lemma_decimal_grows(s: Seq<u8>, i: int, k: int)
    requires
        0 <= i <= k <= s.len(),
        forall|j: int| 0 <= j < s.len() ==> is_digit(#[trigger] s[j]),
    ensures
        decimal(s.take(i)) <= decimal(s.take(k)),
    decreases k - i,
{
    if i < k {
        lemma_decimal_grows(s, i, k - 1);
        assert(s.take(k).drop_last() == s.take(k - 1));
    }
}

/// Reads the decimal number in `s[from..]`, as `parse_u64` does.
fn parse_digits(s: &[u8], from: usize) -> (r: Option<u64>)
    requires
        from <= s@.len(),
    ensures
        r == digits_value(s@.subrange(from as int, s@.len() as int)),
{
    let ghost d = s@.subrange(from as int, s@.len() as int);
    if from == s.len() {
        return None;
    }
    let mut value: u64 = 0;
    let mut i: usize = from;
    while i < s.len()
        invariant
            from <= i <= s@.len(),
            d == s@.subrange(from as int, s@.len() as int),
            forall|j: int| 0 <= j < i - from ==> is_digit(#[trigger] d[j]),
            value == decimal(d.take(i - from)),
        decreases s@.len() - i,
    {
        let b = s[i];
        if b < 48 || b > 57 {
            assert(!is_digit(d[i - from]));
            return None;
        }
        assert(d.take(i - from + 1).drop_last() == d.take(i - from));
        let digit = (b - 48) as u64;
        if value > (u64::MAX - digit) / 10 {
            proof {
                assert(decimal(d.take(i - from + 1)) > u64::MAX);
                if forall|j: int| 0 <= j < d.len() ==> is_digit(#[trigger] d[j]) {
                    lemma_decimal_grows(d, i - from + 1, d.len() as int);
                    assert(d.take(d.len() as int) == d);
                }
            }
            return None;
        }
        value = value * 10 + digit;
        i = i + 1;
    }
    assert(d.take(d.len() as int) == d);
    Some(value)
}

/// The base offset a file name carries, as `offset_of_name` states.
pub fn name_offset(name: &[u8]) -> (r: Option<u64>)
    ensures
        r == offset_of_name(name@),
{
    let n = name.len();
    if n < 6 {
        return None;
    }
    let s = n - 6;
    let is_store = name[s] == 46 && name[s + 1] == 115 && name[s + 2] == 116 && name[s + 3] == 111
        && name[s + 4] == 114 && name[s + 5] == 101;
    let is_index = name[s] == 46 && name[s + 1] == 105 && name[s + 2] == 110 && name[s + 3] == 100
        && name[s + 4] == 101 && name[s + 5] == 120;
    assert(is_store == (name@.subrange(s as int, n as int) == store_suffix())) by {
        if is_store {
            assert(name@.subrange(s as int, n as int) =~= store_suffix());
        } else if name@.subrange(s as int, n as int) == store_suffix() {
            assert(name@.subrange(s as int, n as int)[0] == name@[s as int]);
            assert(name@.subrange(s as int, n as int)[5] == name@[s + 5]);
        }
    }
    assert(is_index == (name@.subrange(s as int, n as int) == index_suffix())) by {
        if is_index {
            assert(name@.subrange(s as int, n as int) =~= index_suffix());
        } else if name@.subrange(s as int, n as int) == index_suffix() {
            assert(name@.subrange(s as int, n as int)[0] == name@[s as int]);
            assert(name@.subrange(s as int, n as int)[5] == name@[s + 5]);
        }
    }
    if !is_store && !is_index {
        return None;
    }
    assert(store_suffix().len() == 6 && index_suffix().len() == 6);
    assert(ends_with(name@, store_suffix()) == is_store);
    assert(ends_with(name@, index_suffix()) == is_index);
    let ghost stem = name@.subrange(0, s as int);
    let stem_slice = vstd::slice::slice_subrange(name, 0, s);
    assert(stem_slice@ == stem);
    if s > 0 && stem_slice[0] == 43 {
        let r = parse_digits(stem_slice, 1);
        assert(stem_slice@.subrange(1, s as int) == stem.drop_first());
        assert(r == parse_u64(stem));
        assert(stem == name@.subrange(0, name@.len() - 6));
        r
    } else {
        let r = parse_digits(stem_slice, 0);
        assert(stem_slice@.subrange(0, s as int) == stem);
        assert(r == parse_u64(stem));
        assert(stem == name@.subrange(0, name@.len() - 6));
        r
    }
}

/// The entries are in increasing order, without repeats.
pub open spec fn strictly_increasing(s: Seq<u64>) -> bool {
    forall|i: int, j: int| 0 <= i < j < s.len() ==> s[i] < s[j]
}

/// The distinct base offsets that the file names carry, in increasing order.
pub fn segment_offsets(names: &Vec<Vec<u8>>) -> (r: Vec<u64>)
    ensures
        strictly_increasing(r@),
        forall|x: u64| r@.contains(x) <==> exists|i: int| 0 <= i < names@.len() && #[trigger] offset_of_name(
            names@[i]@,
        ) == Some(x),
{
    let mut out: Vec<u64> = Vec::new();
    let mut k: usize = 0;
    while k < names.len()
        invariant
            k <= names@.len(),
            strictly_increasing(out@),
            forall|x: u64| out@.contains(x) <==> exists|i: int| 0 <= i < k && #[trigger] offset_of_name(
                names@[i]@,
            ) == Some(x),
        decreases names@.len() - k,
    {
        let parsed = name_offset(names[k].as_slice());
        assert(offset_of_name(names@[k as int]@) == parsed);
        let ghost before = out@;
        match parsed {
            Some(off) => {
                let mut p: usize = 0;
                while p < out.len() && out[p] < off
                    invariant
                        p <= out@.len(),
                        out@ == before,
                        forall|j: int| 0 <= j < p ==> out@[j] < off,
                    decreases out@.len() - p,
                {
                    p = p + 1;
                }
                if p == out.len() || out[p] != off {
                    out.insert(p, off);
                    assert forall|i: int, j: int| 0 <= i < j < out@.len() implies out@[i]
                        < out@[j] by {
                        if j < p {
                            assert(before[i] < before[j]);
                        } else if j == p {
                        } else if i < p {
                            assert(before[i] < off);
                            assert(off < before[j - 1]);
                        } else if i == p {
                            assert(off < before[j - 1]) by {
                                assert(before[p as int] > off);
                                if j - 1 > p {
                                    assert(before[p as int] < before[j - 1]);
                                }
                            }
                        } else {
                            assert(before[i - 1] < before[j - 1]);
                        }
                    }
                    assert forall|x: u64| out@.contains(x) <==> (before.contains(x) || x == off) by {
                        if out@.contains(x) {
                            let t = choose|t: int| 0 <= t < out@.len() && out@[t] == x;
                            if t < p {
                                assert(before[t] == x);
                            } else if t > p {
                                assert(before[t - 1] == x);
                            }
                        }
                        if before.contains(x) {
                            let t = choose|t: int| 0 <= t < before.len() && before[t] == x;
                            if t < p {
                                assert(out@[t] == x);
                            } else {
                                assert(out@[t + 1] == x);
                            }
                        }
                        if x == off {
                            assert(out@[p as int] == x);
                        }
                    }
                } else {
                    assert(before.contains(off)) by {
                        assert(before[p as int] == off);
                    }
                }
                assert forall|x: u64| out@.contains(x) <==> (before.contains(x) || parsed == Some(
                    x,
                )) by {}
            },
            None => {
                assert forall|x: u64| out@.contains(x) <==> (before.contains(x) || parsed == Some(
                    x,
                )) by {}
            },
        }
        assert forall|x: u64| out@.contains(x) <==> exists|i: int| 0 <= i < k + 1
            && #[trigger] offset_of_name(names@[i]@) == Some(x) by {
            assert(before.contains(x) <==> exists|i: int| 0 <= i < k && #[trigger] offset_of_name(
                names@[i]@,
            ) == Some(x));
            if exists|i: int| 0 <= i < k + 1 && #[trigger] offset_of_name(names@[i]@) == Some(x) {
                let i = choose|i: int| 0 <= i < k + 1 && #[trigger] offset_of_name(names@[i]@)
                    == Some(x);
                if i < k {
                    assert(before.contains(x));
                } else {
                    assert(parsed == Some(x));
                }
                assert(out@.contains(x));
            }
            if out@.contains(x) {
                if before.contains(x) {
                    let i = choose|i: int| 0 <= i < k && #[trigger] offset_of_name(names@[i]@)
                        == Some(x);
                    assert(0 <= i < k + 1 && offset_of_name(names@[i]@) == Some(x));
                } else {
                    assert(offset_of_name(names@[k as int]@) == Some(x));
                }
            }
        }
        k = k + 1;
    }
    out
}

} // verus!
