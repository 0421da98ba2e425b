//! Byte values written as JSON numbers, and lists of them as JSON arrays
//! without whitespace.
use vstd::prelude::*;

verus! {

/// `c` is an ASCII decimal digit.
pub open spec fn is_digit(c: u8) -> bool {
    48 <= c <= 57
}

/// The decimal digits of `v`, without leading zeros.
pub open spec fn decimal(v: u8) -> Seq<u8> {
    if v < 10 {
        seq![(48 + v) as u8]
    } else if v < 100 {
        seq![(48 + v / 10) as u8, (48 + v % 10) as u8]
    } else {
        seq![(48 + v / 100) as u8, (48 + (v / 10) % 10) as u8, (48 + v % 10) as u8]
    }
}

/// Appends the decimal digits of `v` to `out`.
pub fn push_decimal(out: &mut Vec<u8>, v: u8)
    ensures
        final(out)@ == old(out)@ + decimal(v),
{
    let ghost start = out@;
    if v < 10 {
        out.push(48 + v);
    } else if v < 100 {
        out.push(48 + v / 10);
        out.push(48 + v % 10);
    } else {
        out.push(48 + v / 100);
        out.push(48 + (v / 10) % 10);
        out.push(48 + v % 10);
    }
    assert(out@ =~= start + decimal(v));
}

/// `b[pos..]` starts with the digits of `v`, followed by the end or a
/// byte that is no digit.
pub open spec fn decimal_at(b: Seq<u8>, pos: int, v: u8) -> bool {
    &&& 0 <= pos
    &&& pos + decimal(v).len() <= b.len()
    &&& b.subrange(pos, pos + decimal(v).len()) == decimal(v)
    &&& (pos + decimal(v).len() == b.len() || !is_digit(b[pos + decimal(v).len()]))
}

/// The number that the digits `d` (one to three of them) write.
pub open spec fn digits_value(d: Seq<u8>) -> int {
    if d.len() == 1 {
        d[0] - 48
    } else if d.len() == 2 {
        10 * (d[0] - 48) + (d[1] - 48)
    } else {
        100 * (d[0] - 48) + 10 * (d[1] - 48) + (d[2] - 48)
    }
}

/// One to three digits, without a leading zero.
pub open spec fn canonical_digits(d: Seq<u8>) -> bool {
    &&& 1 <= d.len() <= 3
    &&& forall|i: int| 0 <= i < d.len() ==> is_digit(#[trigger] d[i])
    &&& d.len() > 1 ==> d[0] != 48
}

/// The digits of a byte value are canonical and write that value.
pub proof fn lemma_decimal(w: u8)
    ensures
        canonical_digits(decimal(w)),
        digits_value(decimal(w)) == w,
{
}

/// Canonical digits that write a value up to 255 are that value's digits.
pub proof fn lemma_digits_decimal(d: Seq<u8>)
    requires
        canonical_digits(d),
        digits_value(d) <= 255,
    ensures
        decimal(digits_value(d) as u8) =~= d,
{
    assert(is_digit(d[0]));
    if d.len() >= 2 {
        assert(is_digit(d[1]));
    }
    if d.len() >= 3 {
        assert(is_digit(d[2]));
    }
}

/// Reads the byte value whose digits start at `pos`; refuses leading zeros,
/// values above 255 and a digit right after them.
pub fn parse_decimal(b: &[u8], pos: usize) -> (r: Option<(u8, usize)>)
    requires
        pos <= b@.len(),
    ensures
        r matches Some((v, next)) ==> decimal_at(b@, pos as int, v) && next == pos
            + decimal(v).len(),
        forall|v: u8| #[trigger]
            decimal_at(b@, pos as int, v) ==> r == Some((v, (pos + decimal(v).len()) as usize)),
{
    let mut n: usize = 0;
    while n < 4 && n < b.len() - pos && 48 <= b[pos + n] && b[pos + n] <= 57
        invariant
            n <= 4,
            pos + n <= b@.len(),
            pos <= b@.len(),
            forall|j: int| pos <= j < pos + n ==> is_digit(#[trigger] b@[j]),
        decreases 4 - n,
    {
        n = n + 1;
    }
    let ghost d = b@.subrange(pos as int, pos + n);
    proof {
        assert forall|w: u8| #[trigger] decimal_at(b@, pos as int, w) implies decimal(w) == d by {
            lemma_decimal(w);
            let l = decimal(w).len();
            assert(forall|j: int| 0 <= j < l ==> b@[pos + j] == #[trigger] decimal(w)[j]);
            if n < l {
                assert(is_digit(b@[pos + n]));
            } else if n > l {
                assert(is_digit(b@[pos + l]));
            }
            assert(decimal(w) =~= d);
        }
    }
    if n == 0 || n == 4 || (n > 1 && b[pos] == 48) {
        proof {
            assert forall|w: u8| #[trigger] decimal_at(b@, pos as int, w) implies false by {
                lemma_decimal(w);
            }
        }
        return None;
    }
    let mut v: u32 = (b[pos] - 48) as u32;
    if n >= 2 {
        v = v * 10 + (b[pos + 1] - 48) as u32;
    }
    if n >= 3 {
        v = v * 10 + (b[pos + 2] - 48) as u32;
    }
    proof {
        assert(canonical_digits(d));
        assert(v == digits_value(d));
    }
    if v > 255 {
        proof {
            assert forall|w: u8| #[trigger] decimal_at(b@, pos as int, w) implies false by {
                lemma_decimal(w);
            }
        }
        return None;
    }
    proof {
        lemma_digits_decimal(d);
        assert forall|w: u8| #[trigger] decimal_at(b@, pos as int, w) implies w == v by {
            lemma_decimal(w);
        }
    }
    Some((v as u8, pos + n))
}

/// The values of `s` as decimal numbers separated by commas.
pub open spec fn number_list(s: Seq<u8>) -> Seq<u8>
    decreases s.len(),
{
    if s.len() == 0 {
        Seq::empty()
    } else if s.len() == 1 {
        decimal(s[0])
    } else {
        number_list(s.drop_last()) + seq![44u8] + decimal(s.last())
    }
}

/// The values of `s` as a JSON array: `[`, the numbers, `]`.
pub open spec fn json_array(s: Seq<u8>) -> Seq<u8> {
    seq![91u8] + number_list(s) + seq![93u8]
}

/// `b[pos..]` starts with the JSON array of `s`.
pub open spec fn array_at(b: Seq<u8>, pos: int, s: Seq<u8>) -> bool {
    &&& 0 <= pos
    &&& pos + json_array(s).len() <= b.len()
    &&& b.subrange(pos, pos + json_array(s).len()) == json_array(s)
}

/// The numbers of the first `k + 1` values extend those of the first `k`
/// by a comma and the digits of value `k`.
pub proof fn lemma_number_list_step(s: Seq<u8>, k: int)
    requires
        1 <= k < s.len(),
    ensures
        number_list(s.take(k + 1)) == number_list(s.take(k)) + seq![44u8] + decimal(s[k]),
{
    assert(s.take(k + 1).drop_last() =~= s.take(k));
}

/// The numbers of the first `k` values start the numbers of all of them,
/// and a comma follows them where values remain.
pub proof fn lemma_number_list_prefix(s: Seq<u8>, k: int)
    requires
        1 <= k <= s.len(),
    ensures
        number_list(s.take(k)).len() <= number_list(s).len(),
        number_list(s).subrange(0, number_list(s.take(k)).len() as int) == number_list(s.take(k)),
        k < s.len() ==> number_list(s.take(k)).len() < number_list(s).len() && number_list(s)[number_list(
            s.take(k),
        ).len() as int] == 44u8,
    decreases s.len(),
{
    if k == s.len() {
        assert(s.take(k) =~= s);
        assert(number_list(s).subrange(0, number_list(s).len() as int) =~= number_list(s));
    } else {
        let r = s.drop_last();
        assert(s.len() >= 2);
        lemma_number_list_prefix(r, k);
        assert(r.take(k) =~= s.take(k));
        assert(number_list(s) == number_list(r) + seq![44u8] + decimal(s.last()));
        if k == r.len() {
            assert(r.take(k) =~= r);
        }
        assert(number_list(s).subrange(0, number_list(s.take(k)).len() as int) =~= number_list(
            r,
        ).subrange(0, number_list(s.take(k)).len() as int));
    }
}

/// Appends the JSON array of the values of `s` to `out`.
pub fn push_json_array(out: &mut Vec<u8>, s: &[u8])
    ensures
        final(out)@ == old(out)@ + json_array(s@),
{
    let ghost start = out@;
    out.push(91);
    let mut i: usize = 0;
    while i < s.len()
        invariant
            i <= s@.len(),
            out@ == start + seq![91u8] + number_list(s@.take(i as int)),
        decreases s@.len() - i,
    {
        if i > 0 {
            out.push(44);
            proof {
                lemma_number_list_step(s@, i as int);
            }
        } else {
            assert(s@.take(1) =~= seq![s@[0]]);
        }
        push_decimal(out, s[i]);
        i = i + 1;
        assert(out@ =~= start + seq![91u8] + number_list(s@.take(i as int)));
    }
    out.push(93);
    assert(s@.take(s@.len() as int) =~= s@);
    assert(out@ =~= start + json_array(s@));
}

/// Where the JSON array of `s` stands at `pos`, the byte right after the
/// numbers of its first `k` values is a comma followed by the digits of
/// value `k`, or, past the last value, the closing bracket.
pub proof fn lemma_array_layout(b: Seq<u8>, pos: int, s: Seq<u8>, k: int)
    requires
        array_at(b, pos, s),
        0 <= k <= s.len(),
    ensures
        ({
            let e = if k == 0 {
                pos + 1
            } else {
                pos + 1 + number_list(s.take(k)).len()
            };
            &&& e < b.len()
            &&& k == s.len() ==> b[e] == 93u8
            &&& 0 < k < s.len() ==> b[e] == 44u8 && decimal_at(b, e + 1, s[k])
            &&& k == 0 < s.len() ==> decimal_at(b, e, s[0])
        }),
{
    let n = number_list(s);
    let j = json_array(s);
    assert(b.subrange(pos, pos + j.len()) == j);
    assert forall|i: int| 0 <= i < n.len() implies b[pos + 1 + i] == #[trigger] n[i] by {
        assert(b.subrange(pos, pos + j.len())[1 + i] == j[1 + i]);
    }
    assert(b.subrange(pos, pos + j.len())[j.len() - 1] == j[j.len() - 1]);
    assert(b[pos + 1 + n.len()] == 93u8);
    if k == s.len() {
        if k > 0 {
            assert(s.take(k) =~= s);
        }
    } else {
        // the digits of value k end where the numbers of the first k + 1 values end
        let before = if k == 0 {
            0
        } else {
            number_list(s.take(k)).len() + 1
        };
        let upto = number_list(s.take(k + 1));
        if k == 0 {
            assert(s.take(1) =~= seq![s[0]]);
            assert(upto == decimal(s[0]));
        } else {
            lemma_number_list_step(s, k);
            lemma_number_list_prefix(s, k);
        }
        lemma_number_list_prefix(s, k + 1);
        let d = decimal(s[k]);
        assert(upto.len() == before + d.len());
        assert forall|i: int| 0 <= i < d.len() implies b[pos + 1 + before + i] == #[trigger] d[i] by {
            assert(upto[before + i] == d[i]);
            assert(n.subrange(0, upto.len() as int)[before + i] == upto[before + i]);
        }
        assert(b.subrange(pos + 1 + before, pos + 1 + before + d.len()) =~= d);
        if k > 0 {
            assert(upto[before - 1] == 44u8);
            assert(n.subrange(0, upto.len() as int)[before - 1] == upto[before - 1]);
        }
        if k + 1 < s.len() {
            assert(b[pos + 1 + upto.len()] == n[upto.len() as int]);
        } else {
            assert(s.take(k + 1) =~= s);
        }
    }
}

/// Reads the JSON array of byte values that starts at `pos`, and the
/// position right after it.
pub fn parse_json_array(b: &[u8], pos: usize) -> (r: Option<(Vec<u8>, usize)>)
    requires
        pos <= b@.len(),
    ensures
        r matches Some((vals, next)) ==> array_at(b@, pos as int, vals@) && next == pos
            + json_array(vals@).len(),
        forall|s: Seq<u8>| #[trigger]
            array_at(b@, pos as int, s) ==> (r matches Some((vals, next)) && vals@ == s && next
                == pos + json_array(s).len()),
{
    if pos >= b.len() || b[pos] != 91 {
        proof {
            assert forall|s: Seq<u8>| #[trigger] array_at(b@, pos as int, s) implies false by {
                assert(b@.subrange(pos as int, pos + json_array(s).len())[0] == json_array(s)[0]);
            }
        }
        return None;
    }
    let mut vals: Vec<u8> = Vec::new();
    let first = pos + 1;
    if first < b.len() && b[first] == 93 {
        proof {
            assert(b@.subrange(pos as int, pos + 2) =~= json_array(seq![]));
            assert forall|s: Seq<u8>| #[trigger] array_at(b@, pos as int, s) implies s.len() == 0 by {
                lemma_array_layout(b@, pos as int, s, 0);
                if s.len() > 0 {
                    lemma_decimal(s[0]);
                    assert(b@.subrange(first as int, first + decimal(s[0]).len())[0] == decimal(
                        s[0],
                    )[0]);
                }
            }
        }
        return Some((vals, first + 1));
    }
    proof {
        assert forall|s: Seq<u8>| #[trigger] array_at(b@, pos as int, s) implies s.len() > 0
            && decimal_at(b@, first as int, s[0]) by {
            lemma_array_layout(b@, pos as int, s, 0);
        }
    }
    if first > b.len() {
        return None;
    }
    let mut cur: usize = match parse_decimal(b, first) {
        None => {
            return None;
        },
        Some((v, next)) => {
            vals.push(v);
            proof {
                assert(vals@ =~= seq![v]);
                assert(b@.subrange(pos as int, next as int) =~= seq![91u8] + number_list(vals@));
                assert forall|s: Seq<u8>| #[trigger] array_at(b@, pos as int, s) implies vals@
                    =~= s.take(1) by {
                    lemma_array_layout(b@, pos as int, s, 0);
                }
            }
            next
        },
    };
    loop
        invariant
            vals@.len() >= 1,
            pos < cur <= b@.len(),
            cur == pos + 1 + number_list(vals@).len(),
            b@.subrange(pos as int, cur as int) == seq![91u8] + number_list(vals@),
            forall|s: Seq<u8>| #[trigger]
                array_at(b@, pos as int, s) ==> vals@.len() <= s.len() && vals@ == s.take(
                    vals@.len() as int,
                ),
        decreases b@.len() - cur,
    {
        proof {
            assert forall|s: Seq<u8>| #[trigger] array_at(b@, pos as int, s) implies ({
                let k = vals@.len() as int;
                &&& cur < b@.len()
                &&& k == s.len() ==> b@[cur as int] == 93u8
                &&& k < s.len() ==> b@[cur as int] == 44u8 && decimal_at(b@, cur + 1, s[k])
            }) by {
                lemma_array_layout(b@, pos as int, s, vals@.len() as int);
            }
        }
        if cur >= b.len() {
            return None;
        }
        if b[cur] == 93 {
            proof {
                assert(b@.subrange(pos as int, cur + 1) =~= json_array(vals@));
                assert forall|s: Seq<u8>| #[trigger] array_at(b@, pos as int, s) implies vals@ == s by {
                    assert(vals@.len() == s.len());
                    assert(s.take(s.len() as int) =~= s);
                }
            }
            return Some((vals, cur + 1));
        }
        if b[cur] != 44 {
            return None;
        }
        match parse_decimal(b, cur + 1) {
            None => {
                return None;
            },
            Some((v, next)) => {
                let ghost old_vals = vals@;
                vals.push(v);
                proof {
                    assert(vals@.drop_last() =~= old_vals);
                    assert(b@.subrange(pos as int, next as int) =~= seq![91u8] + number_list(vals@));
                    assert forall|s: Seq<u8>| #[trigger] array_at(b@, pos as int, s) implies vals@.len()
                        <= s.len() && vals@ == s.take(vals@.len() as int) by {
                        assert(s.take(old_vals.len() + 1 as int) =~= s.take(old_vals.len() as int).push(
                            s[old_vals.len() as int],
                        ));
                    }
                }
                cur = next;
            },
        }
    }
}

} // verus!
