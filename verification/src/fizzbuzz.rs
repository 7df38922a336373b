//! Two fizzbuzz exercises: a direct rendering by divisibility, and a
//! sieve-style version that first writes every number and then overwrites
//! the multiples of 3, 5 and 15.  Both meet the same specification.

use vstd::prelude::*;
use vstd::string::StringExecFns;

use crate::text::push_char;

verus! {

/// The character for one decimal digit.
pub open spec fn spec_digit_char(d: nat) -> char {
    if d == 0 {
        '0'
    } else if d == 1 {
        '1'
    } else if d == 2 {
        '2'
    } else if d == 3 {
        '3'
    } else if d == 4 {
        '4'
    } else if d == 5 {
        '5'
    } else if d == 6 {
        '6'
    } else if d == 7 {
        '7'
    } else if d == 8 {
        '8'
    } else {
        '9'
    }
}

/// Decimal rendering of a natural number, most significant digit first.
pub open spec fn spec_decimal(n: nat) -> Seq<char>
    decreases n,
{
    if n < 10 {
        seq![spec_digit_char(n)]
    } else {
        spec_decimal(n / 10).push(spec_digit_char(n % 10))
    }
}

/// What position `i` (counting from 1) shows: `FizzBuzz` on multiples of
/// both 3 and 5, `Fizz` on multiples of 3, `Buzz` on multiples of 5, the
/// number itself otherwise.
pub open spec fn spec_fizzbuzz(i: nat) -> Seq<char> {
    if i % 3 == 0 && i % 5 == 0 {
        "FizzBuzz"@
    } else if i % 3 == 0 {
        "Fizz"@
    } else if i % 5 == 0 {
        "Buzz"@
    } else {
        spec_decimal(i)
    }
}

/// The first `count` fizzbuzz values, position 1 first.
pub open spec fn spec_fizzbuzz_list(count: nat) -> Seq<Seq<char>> {
    Seq::new(count, |k: int| spec_fizzbuzz((k + 1) as nat))
}

/// A multiple of 15 is exactly a common multiple of 3 and 5.
proof fn lemma_mod_3_5_15(x: int)
    requires
        x >= 0,
    ensures
        (x % 15 == 0) <==> (x % 3 == 0 && x % 5 == 0),
{
    assert((x % 15 == 0) ==> (x % 3 == 0 && x % 5 == 0)) by (nonlinear_arith);
    assert((x % 3 == 0 && x % 5 == 0) ==> x % 15 == 0) by (nonlinear_arith);
}

/// One digit as a character.
fn digit_char(d: u64) -> (c: char)
    requires
        d < 10,
    ensures
        c == spec_digit_char(d as nat),
{
    match d {
        0 => '0',
        1 => '1',
        2 => '2',
        3 => '3',
        4 => '4',
        5 => '5',
        6 => '6',
        7 => '7',
        8 => '8',
        _ => '9',
    }
}

/// Append the decimal rendering of `n` to `out`.
fn push_decimal(out: &mut String, n: u64)
    ensures
        final(out)@ == old(out)@ + spec_decimal(n as nat),
    decreases n,
{
    if n < 10 {
        push_char(out, digit_char(n));
        proof {
            assert(old(out)@.push(spec_digit_char(n as nat)) =~= old(out)@ + spec_decimal(
                n as nat,
            ));
        }
    } else {
        push_decimal(out, n / 10);
        push_char(out, digit_char(n % 10));
        proof {
            assert((old(out)@ + spec_decimal((n / 10) as nat)).push(
                spec_digit_char((n % 10) as nat),
            ) =~= old(out)@ + spec_decimal(n as nat));
        }
    }
}

/// The decimal rendering of `n` as an owned string.
fn decimal_string(n: u64) -> (r: String)
    ensures
        r@ == spec_decimal(n as nat),
{
    let mut s = String::new();
    push_decimal(&mut s, n);
    proof {
        assert(s@ =~= spec_decimal(n as nat));
    }
    s
}

/// Render one position by matching on its divisibility.
fn to_fizzbuzz_string(i: u64) -> (r: String)
    ensures
        r@ == spec_fizzbuzz(i as nat),
{
    if i % 3 == 0 && i % 5 == 0 {
        String::from_str("FizzBuzz")
    } else if i % 3 == 0 {
        String::from_str("Fizz")
    } else if i % 5 == 0 {
        String::from_str("Buzz")
    } else {
        decimal_string(i)
    }
}

/// The first `count` fizzbuzz values, each position rendered directly.
#[verifier::loop_isolation(false)]
pub fn fizzbuzz_with_match(count: usize) -> (r: Vec<String>)
    ensures
        r.deep_view() == spec_fizzbuzz_list(count as nat),
{
    let mut r: Vec<String> = Vec::new();
    let mut i: usize = 0;
    proof {
        assert(r.deep_view() =~= spec_fizzbuzz_list(count as nat).take(0));
    }
    while i < count
        invariant
            0 <= i <= count,
            r@.len() == i,
            r.deep_view() == spec_fizzbuzz_list(count as nat).take(i as int),
        decreases count - i,
    {
        let ghost old_dv = r.deep_view();
        let s = to_fizzbuzz_string((i + 1) as u64);
        let ghost sv = s@;
        r.push(s);
        proof {
            assert(r.deep_view().len() == r@.len());
            assert(old_dv.len() == i as int);
            assert forall|k: int| 0 <= k < i + 1 implies r.deep_view()[k] == spec_fizzbuzz_list(
                count as nat,
            ).take(i as int + 1)[k] by {
                if k < i {
                    assert(r.deep_view()[k] == old_dv[k]);
                } else {
                    assert(r.deep_view()[k] == sv);
                }
            }
            assert(r.deep_view() =~= spec_fizzbuzz_list(count as nat).take(i as int + 1));
        }
        i += 1;
    }
    proof {
        assert(spec_fizzbuzz_list(count as nat).take(count as int) =~= spec_fizzbuzz_list(
            count as nat,
        ));
    }
    r
}

/// The first `count` fizzbuzz values, built as a sieve: write every number,
/// then overwrite each multiple of 3, of 5, and of 15 in turn.
#[verifier::loop_isolation(false)]
pub fn fizzbuzz_with_loops(count: usize) -> (r: Vec<String>)
    ensures
        r.deep_view() == spec_fizzbuzz_list(count as nat),
{
    let mut fb: Vec<String> = Vec::new();
    let mut i: usize = 0;
    while i < count
        invariant
            0 <= i <= count,
            fb@.len() == i,
            forall|k: int|
                0 <= k < i ==> #[trigger] fb.deep_view()[k] == spec_decimal((k + 1) as nat),
        decreases count - i,
    {
        let ghost old_dv = fb.deep_view();
        let s = decimal_string((i + 1) as u64);
        let ghost sv = s@;
        fb.push(s);
        proof {
            assert forall|k: int| 0 <= k < i + 1 implies #[trigger] fb.deep_view()[k]
                == spec_decimal((k + 1) as nat) by {
                if k < i {
                    assert(fb.deep_view()[k] == old_dv[k]);
                } else {
                    assert(fb.deep_view()[k] == sv);
                }
            }
        }
        i += 1;
    }
    let mut m: usize = 1;
    while m <= count / 3
        invariant
            fb@.len() == count,
            1 <= m <= count / 3 + 1,
            forall|k: int|
                0 <= k < count ==> #[trigger] fb.deep_view()[k] == (if (k + 1) % 3 == 0 && k + 1
                    < 3 * m {
                    "Fizz"@
                } else {
                    spec_decimal((k + 1) as nat)
                }),
        decreases count / 3 + 1 - m,
    {
        let idx = 3 * m - 1;
        let ghost old_dv = fb.deep_view();
        fb[idx] = String::from_str("Fizz");
        proof {
            assert forall|k: int| 0 <= k < count implies #[trigger] fb.deep_view()[k] == (if (k + 1)
                % 3 == 0 && k + 1 < 3 * (m + 1) {
                "Fizz"@
            } else {
                spec_decimal((k + 1) as nat)
            }) by {
                if k == idx as int {
                } else {
                    assert(fb.deep_view()[k] == old_dv[k]);
                }
            }
        }
        m += 1;
    }
    proof {
        assert forall|k: int| 0 <= k < count implies #[trigger] fb.deep_view()[k] == (if (k + 1) % 3
            == 0 {
            "Fizz"@
        } else {
            spec_decimal((k + 1) as nat)
        }) by {}
    }
    let mut m: usize = 1;
    while m <= count / 5
        invariant
            fb@.len() == count,
            1 <= m <= count / 5 + 1,
            forall|k: int|
                0 <= k < count ==> #[trigger] fb.deep_view()[k] == (if (k + 1) % 5 == 0 && k + 1
                    < 5 * m {
                    "Buzz"@
                } else if (k + 1) % 3 == 0 {
                    "Fizz"@
                } else {
                    spec_decimal((k + 1) as nat)
                }),
        decreases count / 5 + 1 - m,
    {
        let idx = 5 * m - 1;
        let ghost old_dv = fb.deep_view();
        fb[idx] = String::from_str("Buzz");
        proof {
            assert forall|k: int| 0 <= k < count implies #[trigger] fb.deep_view()[k] == (if (k + 1)
                % 5 == 0 && k + 1 < 5 * (m + 1) {
                "Buzz"@
            } else if (k + 1) % 3 == 0 {
                "Fizz"@
            } else {
                spec_decimal((k + 1) as nat)
            }) by {
                if k == idx as int {
                } else {
                    assert(fb.deep_view()[k] == old_dv[k]);
                }
            }
        }
        m += 1;
    }
    let mut m: usize = 1;
    while m <= count / 15
        invariant
            fb@.len() == count,
            1 <= m <= count / 15 + 1,
            forall|k: int|
                0 <= k < count ==> #[trigger] fb.deep_view()[k] == (if (k + 1) % 15 == 0 && k + 1
                    < 15 * m {
                    "FizzBuzz"@
                } else if (k + 1) % 5 == 0 {
                    "Buzz"@
                } else if (k + 1) % 3 == 0 {
                    "Fizz"@
                } else {
                    spec_decimal((k + 1) as nat)
                }),
        decreases count / 15 + 1 - m,
    {
        let idx = 15 * m - 1;
        let ghost old_dv = fb.deep_view();
        fb[idx] = String::from_str("FizzBuzz");
        proof {
            assert forall|k: int| 0 <= k < count implies #[trigger] fb.deep_view()[k] == (if (k + 1)
                % 15 == 0 && k + 1 < 15 * (m + 1) {
                "FizzBuzz"@
            } else if (k + 1) % 5 == 0 {
                "Buzz"@
            } else if (k + 1) % 3 == 0 {
                "Fizz"@
            } else {
                spec_decimal((k + 1) as nat)
            }) by {
                if k == idx as int {
                } else {
                    assert(fb.deep_view()[k] == old_dv[k]);
                }
            }
        }
        m += 1;
    }
    proof {
        assert forall|k: int| 0 <= k < count implies #[trigger] fb.deep_view()[k] == spec_fizzbuzz(
            (k + 1) as nat,
        ) by {
            lemma_mod_3_5_15(k + 1);
        }
        assert(fb.deep_view() =~= spec_fizzbuzz_list(count as nat));
    }
    fb
}

} // verus!
