//! The program loader's computational core: parsing comma-separated signed
//! decimal integers, each optionally surrounded by ASCII whitespace, into
//! the initial contents of program memory in index order.

use vstd::prelude::*;

verus! {

/// ASCII whitespace accepted around a token.
pub open spec fn is_space(b: u8) -> bool {
    b == 32 || b == 9 || b == 10 || b == 12 || b == 13
}

/// An ASCII decimal digit.
pub open spec fn is_digit(b: u8) -> bool {
    48 <= b <= 57
}

/// The token without its leading whitespace.
pub open spec fn trim_front(t: Seq<u8>) -> Seq<u8>
    decreases t.len(),
{
    if t.len() > 0 && is_space(t[0]) {
        trim_front(t.drop_first())
    } else {
        t
    }
}

/// The token without its trailing whitespace.
pub open spec fn trim_back(t: Seq<u8>) -> Seq<u8>
    decreases t.len(),
{
    if t.len() > 0 && is_space(t.last()) {
        trim_back(t.drop_last())
    } else {
        t
    }
}

/// The token without surrounding whitespace.
pub open spec fn trim(t: Seq<u8>) -> Seq<u8> {
    trim_back(trim_front(t))
}

/// The digits from position `i` on, folded into `acc` as a non-positive
/// negated magnitude; `None` at the first non-digit byte.
pub open spec fn digits_from(t: Seq<u8>, i: int, acc: int) -> Option<int>
    decreases t.len() - i,
{
    if i >= t.len() {
        Some(acc)
    } else if is_digit(t[i]) {
        digits_from(t, i + 1, acc * 10 - (t[i] - 48))
    } else {
        None
    }
}

/// The value of a non-empty all-digit run read as a negative number.
pub open spec fn neg_value(d: Seq<u8>) -> Option<int> {
    if d.len() == 0 {
        None
    } else {
        digits_from(d, 0, 0)
    }
}

/// The value of a non-empty all-digit run read as a positive number.
pub open spec fn pos_value(d: Seq<u8>) -> Option<int> {
    match neg_value(d) {
        Some(v) => Some(-v),
        None => None,
    }
}

/// The mathematical value of a trimmed token: an optional sign followed by
/// at least one decimal digit.
pub open spec fn signed_value(u: Seq<u8>) -> Option<int> {
    if u.len() == 0 {
        None
    } else if u[0] == 43 {
        pos_value(u.subrange(1, u.len() as int))
    } else if u[0] == 45 {
        neg_value(u.subrange(1, u.len() as int))
    } else {
        pos_value(u)
    }
}

/// The value of one raw token, when it is a well-formed signed decimal
/// integer within the 64-bit signed range.
pub open spec fn token_value(t: Seq<u8>) -> Option<i64> {
    match signed_value(trim(t)) {
        Some(v) => if i64::MIN <= v <= i64::MAX {
            Some(v as i64)
        } else {
            None
        },
        None => None,
    }
}

/// The memory encoded from position `i` on, with `tok` the bytes of the
/// token read so far. Commas separate tokens; every token must parse.
pub open spec fn parse_rec(s: Seq<u8>, i: int, tok: Seq<u8>) -> Option<Seq<i64>>
    decreases s.len() - i,
{
    if i >= s.len() {
        match token_value(tok) {
            Some(v) => Some(seq![v]),
            None => None,
        }
    } else if s[i] == 44 {
        match token_value(tok) {
            Some(v) => match parse_rec(s, i + 1, Seq::empty()) {
                Some(rest) => Some(seq![v] + rest),
                None => None,
            },
            None => None,
        }
    } else {
        parse_rec(s, i + 1, tok.push(s[i]))
    }
}

/// The program memory encoded by the whole text, or `None` when any token
/// is malformed. The empty text holds one empty token and encodes nothing.
pub open spec fn program_of(s: Seq<u8>) -> Option<Seq<i64>> {
    parse_rec(s, 0, Seq::empty())
}

/// A digit fold started at or below zero only goes further down.
proof fn lemma_digits_le(t: Seq<u8>, i: int, acc: int)
    requires
        acc <= 0,
    ensures
        digits_from(t, i, acc) matches Some(v) ==> v <= acc,
    decreases t.len() - i,
{
    if i >= t.len() {
    } else if is_digit(t[i]) {
        lemma_digits_le(t, i + 1, acc * 10 - (t[i] - 48));
    }
}

/// Executable counterpart of [`is_space`].
fn is_space_byte(b: u8) -> (r: bool)
    ensures
        r == is_space(b),
{
    b == 32 || b == 9 || b == 10 || b == 12 || b == 13
}

/// Parse the one token in `src[lo..hi]`.
fn parse_token(src: &[u8], lo: usize, hi: usize) -> (r: Option<i64>)
    requires
        lo <= hi <= src@.len(),
    ensures
        r == token_value(src@.subrange(lo as int, hi as int)),
{
    let ghost t = src@.subrange(lo as int, hi as int);
    let mut l = lo;
    let mut h = hi;
    while l < h && is_space_byte(src[l])
        invariant
            lo <= l <= h <= src@.len(),
            h == hi,
            t == src@.subrange(lo as int, hi as int),
            trim_front(t) == trim_front(src@.subrange(l as int, hi as int)),
        decreases h - l,
    {
        proof {
            assert(src@.subrange(l as int, hi as int).drop_first() =~= src@.subrange(
                l as int + 1,
                hi as int,
            ));
        }
        l = l + 1;
    }
    proof {
        assert(trim_front(t) == src@.subrange(l as int, hi as int));
    }
    while h > l && is_space_byte(src[h - 1])
        invariant
            lo <= l <= h <= hi <= src@.len(),
            t == src@.subrange(lo as int, hi as int),
            trim_front(t) == src@.subrange(l as int, hi as int),
            trim_back(trim_front(t)) == trim_back(src@.subrange(l as int, h as int)),
        decreases h - l,
    {
        proof {
            assert(src@.subrange(l as int, h as int).drop_last() =~= src@.subrange(
                l as int,
                h as int - 1,
            ));
        }
        h = h - 1;
    }
    let ghost u = src@.subrange(l as int, h as int);
    proof {
        assert(trim(t) == u);
    }
    if l == h {
        return None;
    }
    let first = src[l];
    let neg: bool;
    if first == 43 {
        neg = false;
        l = l + 1;
        proof {
            assert(u.subrange(1, u.len() as int) =~= src@.subrange(l as int, h as int));
        }
    } else if first == 45 {
        neg = true;
        l = l + 1;
        proof {
            assert(u.subrange(1, u.len() as int) =~= src@.subrange(l as int, h as int));
        }
    } else {
        neg = false;
    }
    let ghost d = src@.subrange(l as int, h as int);
    proof {
        assert(signed_value(u) == (if neg {
            neg_value(d)
        } else {
            pos_value(d)
        }));
    }
    if l == h {
        return None;
    }
    let mut acc: i64 = 0;
    let mut j = l;
    while j < h
        invariant
            l <= j <= h <= src@.len(),
            l < h,
            acc <= 0,
            t == src@.subrange(lo as int, hi as int),
            u == trim(t),
            d == src@.subrange(l as int, h as int),
            signed_value(u) == (if neg {
                neg_value(d)
            } else {
                pos_value(d)
            }),
            digits_from(d, 0, 0) == digits_from(d, j - l, acc as int),
        decreases h - j,
    {
        let b = src[j];
        proof {
            assert(d[j - l] == b);
        }
        if !(b >= 48 && b <= 57) {
            proof {
                assert(digits_from(d, j - l, acc as int) is None);
                assert(token_value(t) is None);
            }
            return None;
        }
        let dig = (b - 48) as i64;
        let acc10 = match acc.checked_mul(10) {
            Some(x) => x,
            None => {
                proof {
                    assert(acc * 10 < i64::MIN);
                    lemma_digits_le(d, j - l + 1, acc * 10 - dig);
                    assert(digits_from(d, 0, 0) matches Some(v) ==> v < i64::MIN);
                    assert(token_value(t) is None);
                }
                return None;
            },
        };
        let acc2 = match acc10.checked_sub(dig) {
            Some(y) => y,
            None => {
                proof {
                    assert(acc * 10 - dig < i64::MIN);
                    lemma_digits_le(d, j - l + 1, acc * 10 - dig);
                    assert(digits_from(d, 0, 0) matches Some(v) ==> v < i64::MIN);
                    assert(token_value(t) is None);
                }
                return None;
            },
        };
        acc = acc2;
        j = j + 1;
    }
    if neg {
        Some(acc)
    } else {
        if acc == i64::MIN {
            return None;
        }
        Some(-acc)
    }
}

/// Parse the whole program text into program memory, or `None` when some
/// token is not a signed 64-bit decimal integer.
pub fn parse_program(src: &[u8]) -> (r: Option<Vec<i64>>)
    ensures
        match r {
            Some(v) => program_of(src@) == Some(v@),
            None => program_of(src@) is None,
        },
{
    let n = src.len();
    let mut vals: Vec<i64> = Vec::new();
    let mut l: usize = 0;
    let mut i: usize = 0;
    proof {
        assert(src@.subrange(0, 0) =~= Seq::<u8>::empty());
        match parse_rec(src@, 0, Seq::empty()) {
            Some(rest) => {
                assert(program_of(src@) matches Some(all) && all =~= vals@ + rest);
            },
            None => {},
        }
    }
    while i < n
        invariant
            l <= i <= n,
            n == src@.len(),
            match parse_rec(src@, i as int, src@.subrange(l as int, i as int)) {
                Some(rest) => program_of(src@) matches Some(all) && all == vals@ + rest,
                None => program_of(src@) is None,
            },
        decreases n - i,
    {
        let ghost tok = src@.subrange(l as int, i as int);
        let b = src[i];
        if b == 44 {
            match parse_token(src, l, i) {
                Some(v) => {
                    vals.push(v);
                    proof {
                        match parse_rec(src@, i as int + 1, Seq::empty()) {
                            Some(rest2) => {
                                let all = program_of(src@).unwrap();
                                assert(all =~= vals@ + rest2);
                            },
                            None => {},
                        }
                        assert(src@.subrange(i as int + 1, i as int + 1)
                            =~= Seq::<u8>::empty());
                    }
                },
                None => {
                    return None;
                },
            }
            l = i + 1;
        } else {
            proof {
                assert(tok.push(b) =~= src@.subrange(l as int, i as int + 1));
            }
        }
        i = i + 1;
    }
    match parse_token(src, l, n) {
        Some(v) => {
            vals.push(v);
            proof {
                let all = program_of(src@).unwrap();
                assert(all =~= vals@);
            }
            Some(vals)
        },
        None => None,
    }
}

} // verus!
