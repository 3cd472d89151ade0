//! Identifiers and timestamps taken from the machine, and the text form of
//! UUIDs.
use vstd::prelude::*;
use vstd::arithmetic::power::pow;

verus! {

/// A fresh random (version 4) UUID from `uuid::Uuid::new_v4`, returned as the
/// 128-bit integer `Uuid::as_u128` gives. Nothing is promised of the value:
/// it comes from a random number generator.
#[verifier::external_body]
pub(crate) fn fresh_uuid() -> u128 {
    uuid::Uuid::new_v4().as_u128()
}

/// The current time from `chrono::Utc::now`, as milliseconds since the Unix
/// epoch (`DateTime::timestamp_millis`). Nothing is promised of the value: it
/// is read from the system clock.
#[verifier::external_body]
pub(crate) fn now_millis() -> i64 {
    chrono::Utc::now().timestamp_millis()
}

/// The lower-case hexadecimal digit for `d < 16`.
pub open spec fn hex_digit(d: int) -> char {
    if d < 10 {
        ('0' as int + d) as char
    } else {
        ('a' as int + d - 10) as char
    }
}

/// Hexadecimal digit `k` (0 to 31, most significant first) of `id`.
pub open spec fn uuid_nibble(id: u128, k: int) -> int {
    (id as int / pow(16, (31 - k) as nat)) % 16
}

/// The hyphenated text of a UUID: its 32 hexadecimal digits, most
/// significant first, in groups of 8, 4, 4, 4 and 12 joined by `-`.
pub open spec fn uuid_hyphenated(id: u128) -> Seq<char> {
    Seq::new(
        36,
        |i: int|
            if i == 8 || i == 13 || i == 18 || i == 23 {
                '-'
            } else {
                let k = if i < 8 {
                    i
                } else if i < 13 {
                    i - 1
                } else if i < 18 {
                    i - 2
                } else if i < 23 {
                    i - 3
                } else {
                    i - 4
                };
                hex_digit(uuid_nibble(id, k))
            },
    )
}

/// The lower-case hexadecimal digit `d`, as a one-character string.
fn hex_str(d: u128) -> (r: &'static str)
    requires
        d < 16,
    ensures
        r@ == seq![hex_digit(d as int)],
{
    let r = if d == 0 {
        "0"
    } else if d == 1 {
        "1"
    } else if d == 2 {
        "2"
    } else if d == 3 {
        "3"
    } else if d == 4 {
        "4"
    } else if d == 5 {
        "5"
    } else if d == 6 {
        "6"
    } else if d == 7 {
        "7"
    } else if d == 8 {
        "8"
    } else if d == 9 {
        "9"
    } else if d == 10 {
        "a"
    } else if d == 11 {
        "b"
    } else if d == 12 {
        "c"
    } else if d == 13 {
        "d"
    } else if d == 14 {
        "e"
    } else {
        "f"
    };
    proof {
        reveal_strlit("0");
        reveal_strlit("1");
        reveal_strlit("2");
        reveal_strlit("3");
        reveal_strlit("4");
        reveal_strlit("5");
        reveal_strlit("6");
        reveal_strlit("7");
        reveal_strlit("8");
        reveal_strlit("9");
        reveal_strlit("a");
        reveal_strlit("b");
        reveal_strlit("c");
        reveal_strlit("d");
        reveal_strlit("e");
        reveal_strlit("f");
    }
    assert(r@ =~= seq![hex_digit(d as int)]);
    r
}

/// The hyphens among the first `k` digit positions: one before each of the
/// digits 8, 12, 16 and 20.
pub open spec fn hyphens_before(k: int) -> int {
    (if k > 8 { 1int } else { 0int }) + (if k > 12 { 1int } else { 0int }) + (if k > 16 { 1int } else { 0int }) + (if k > 20 { 1int } else { 0int })
}

/// The text of the UUID `id` in the lower-case hyphenated form that
/// `uuid::Uuid`'s `Display` writes: its 32 hexadecimal digits, most
/// significant first, in groups of 8, 4, 4, 4 and 12 joined by `-`.
pub fn uuid_text(id: u128) -> (r: String)
    ensures
        r@ == uuid_hyphenated(id),
{
    let ghost full = uuid_hyphenated(id);
    let mut out = String::new();
    let mut div: u128 = 0x1000_0000_0000_0000_0000_0000_0000_0000;
    proof {
        reveal_with_fuel(pow, 32);
        assert(pow(16, 31) == 0x1000_0000_0000_0000_0000_0000_0000_0000int);
        assert(out@ =~= full.take(0));
    }
    let mut k: u128 = 0;
    while k < 32
        invariant
            k <= 32,
            full == uuid_hyphenated(id),
            k < 32 ==> div as int == pow(16, (31 - k) as nat),
            out@ == full.take(k + hyphens_before(k as int)),
        decreases 32 - k,
    {
        if k == 8 || k == 12 || k == 16 || k == 20 {
            let ghost before = out@;
            out.append("-");
            proof {
                reveal_strlit("-");
                assert(full[k + hyphens_before(k as int)] == '-');
                assert(out@ =~= full.take(k + hyphens_before(k as int) + 1));
            }
        }
        let ghost at = k + hyphens_before(k as int + 1);
        assert(out@ == full.take(at));
        proof {
            vstd::arithmetic::power::lemma_pow_positive(16, (31 - k) as nat);
        }
        let digit = (id / div) % 16;
        let ghost before = out@;
        out.append(hex_str(digit));
        proof {
            assert(digit == uuid_nibble(id, k as int));
            assert(full[at] == hex_digit(uuid_nibble(id, k as int)));
            assert(out@ =~= full.take(at + 1));
        }
        if k < 31 {
            proof {
                let m = (31 - k) as nat;
                reveal(pow);
                assert(pow(16, m) == 16 * pow(16, (m - 1) as nat));
            }
            div = div / 16;
        }
        k = k + 1;
    }
    proof {
        assert(full.take(36) =~= full);
    }
    out
}

} // verus!
