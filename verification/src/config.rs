//! How a switch in the touch tunables is read from its environment value: any value turns it on
//! except `0` and `false` in any ASCII case; an absent (or unreadable) value keeps the default.
use vstd::prelude::*;
use vstd::string::StringSliceAdditionalSpecFns;

verus! {

/// The byte with ASCII upper case folded to lower case, as `u8::to_ascii_lowercase` does.
pub open spec fn ascii_lower(b: u8) -> u8 {
    if 65 <= b <= 90 {
        (b + 32) as u8
    } else {
        b
    }
}

/// The bytes of `false`.
pub open spec fn false_bytes() -> Seq<u8> {
    seq![102u8, 97u8, 108u8, 115u8, 101u8]
}

/// Equal to `false` ignoring ASCII case, byte by byte.
pub open spec fn is_false_word(bytes: Seq<u8>) -> bool {
    bytes.len() == 5 && forall|i: int| 0 <= i < 5 ==> ascii_lower(#[trigger] bytes[i]) == false_bytes()[i]
}

/// A switch value turns the switch on unless it is exactly `0` or `false` in any ASCII case.
pub open spec fn flag_on(bytes: Seq<u8>) -> bool {
    !(bytes == seq![48u8] || is_false_word(bytes))
}

/// A switch is off exactly for the value `0` and for the five letters of `false`, each in either
/// ASCII case; every other value, including every value whose length is neither 1 nor 5, turns it
/// on.
pub proof fn lemma_flag_off_values(bytes: Seq<u8>)
    ensures
        !flag_on(bytes) <==> (bytes == seq![48u8] || (bytes.len() == 5 && (bytes[0] == 102u8 || bytes[0]
            == 70u8) && (bytes[1] == 97u8 || bytes[1] == 65u8) && (bytes[2] == 108u8 || bytes[2] == 76u8)
            && (bytes[3] == 115u8 || bytes[3] == 83u8) && (bytes[4] == 101u8 || bytes[4] == 69u8))),
        bytes.len() != 1 && bytes.len() != 5 ==> flag_on(bytes),
{
    let spelled = bytes.len() == 5 && (bytes[0] == 102u8 || bytes[0] == 70u8) && (bytes[1] == 97u8
        || bytes[1] == 65u8) && (bytes[2] == 108u8 || bytes[2] == 76u8) && (bytes[3] == 115u8 || bytes[3]
        == 83u8) && (bytes[4] == 101u8 || bytes[4] == 69u8);
    if is_false_word(bytes) {
        assert(ascii_lower(bytes[0]) == false_bytes()[0]);
        assert(ascii_lower(bytes[1]) == false_bytes()[1]);
        assert(ascii_lower(bytes[2]) == false_bytes()[2]);
        assert(ascii_lower(bytes[3]) == false_bytes()[3]);
        assert(ascii_lower(bytes[4]) == false_bytes()[4]);
        assert(spelled);
    }
    if spelled {
        assert forall|i: int| 0 <= i < 5 implies ascii_lower(#[trigger] bytes[i]) == false_bytes()[i] by {
            assert(i == 0 || i == 1 || i == 2 || i == 3 || i == 4);
        }
        assert(is_false_word(bytes));
    }
    if bytes.len() != 1 {
        assert(bytes != seq![48u8]);
    }
}

/// One byte, folded to lower case.
fn lower_byte(b: u8) -> (r: u8)
    ensures
        r == ascii_lower(b),
{
    if 65 <= b && b <= 90 {
        b + 32
    } else {
        b
    }
}

/// Byte `i` of `false`.
fn false_byte(i: usize) -> (r: u8)
    requires
        i < 5,
    ensures
        r == false_bytes()[i as int],
{
    if i == 0 {
        102
    } else if i == 1 {
        97
    } else if i == 2 {
        108
    } else if i == 3 {
        115
    } else {
        101
    }
}

/// Does the switch value `v` turn the switch on?
pub fn flag_value(v: &str) -> (on: bool)
    ensures
        on == flag_on(v.spec_bytes()),
        v.spec_bytes().len() != 1 && v.spec_bytes().len() != 5 ==> on,
{
    proof {
        lemma_flag_off_values(v.spec_bytes());
    }
    let b = v.as_bytes();
    if b.len() == 1 && b[0] == 48 {
        proof {
            assert(b@ =~= seq![48u8]);
        }
        return false;
    }
    if b.len() != 5 {
        proof {
            assert(b@ != seq![48u8]);
        }
        return true;
    }
    proof {
        assert(b@ != seq![48u8]);
    }
    let mut i: usize = 0;
    while i < 5
        invariant
            0 <= i <= 5,
            b@.len() == 5,
            b@ == v.spec_bytes(),
            b@ != seq![48u8],
            forall|k: int| 0 <= k < i ==> ascii_lower(#[trigger] b@[k]) == false_bytes()[k],
        decreases 5 - i,
    {
        if lower_byte(b[i]) != false_byte(i) {
            proof {
                assert(ascii_lower(b@[i as int]) != false_bytes()[i as int]);
            }
            return true;
        }
        i += 1;
    }
    false
}

/// A switch read from the environment: the value, when there is one, decides; otherwise the
/// default stands.
pub fn env_flag(value: Option<&str>, default: bool) -> (on: bool)
    ensures
        on == match value {
            Some(v) => flag_on(v.spec_bytes()),
            None => default,
        },
{
    match value {
        Some(v) => flag_value(v),
        None => default,
    }
}

} // verus!
