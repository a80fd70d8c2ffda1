//! Texts of errors.
use crate::codec::PROTOCOL_VERSION;
use vstd::prelude::*;
use vstd::string::StringExecFns;

verus! {

/// One decimal digit.
pub open spec fn digit(d: u8) -> Seq<char> {
    match d {
        0 => "0"@,
        1 => "1"@,
        2 => "2"@,
        3 => "3"@,
        4 => "4"@,
        5 => "5"@,
        6 => "6"@,
        7 => "7"@,
        8 => "8"@,
        _ => "9"@,
    }
}

/// A number in decimal, without leading zeros.
pub open spec fn decimal(v: nat) -> Seq<char>
    decreases v,
{
    if v < 10 {
        digit(v as u8)
    } else {
        decimal(v / 10) + digit((v % 10) as u8)
    }
}

/// The text that rejects a protocol version.
pub open spec fn unsupported_version(version: u8) -> Seq<char> {
    "version "@ + decimal(version as nat) + " unsupported (expected "@ + decimal(
        PROTOCOL_VERSION as nat,
    ) + ")"@
}

fn digit_text(d: u8) -> (r: &'static str)
    requires
        d < 10,
    ensures
        r@ == digit(d),
{
    match d {
        0 => "0",
        1 => "1",
        2 => "2",
        3 => "3",
        4 => "4",
        5 => "5",
        6 => "6",
        7 => "7",
        8 => "8",
        _ => "9",
    }
}

/// Appends a number in decimal.
pub(crate) fn append_decimal(text: &mut String, v: u64)
    ensures
        final(text)@ == old(text)@ + decimal(v as nat),
    decreases v,
{
    let ghost before = text@;
    if v >= 10 {
        append_decimal(text, v / 10);
    }
    text.append(digit_text((v % 10) as u8));
    assert(text@ =~= before + decimal(v as nat));
}

/// Builds the text that rejects a protocol version.
pub fn unsupported_version_text(version: u8) -> (r: String)
    ensures
        r@ == unsupported_version(version),
{
    let mut text = String::from_str("version ");
    append_decimal(&mut text, version as u64);
    text.append(" unsupported (expected ");
    append_decimal(&mut text, PROTOCOL_VERSION as u64);
    text.append(")");
    text
}

/// A number in decimal is its leading digits followed by its last one, and a
/// single digit is its character.
pub proof fn decimal_appends_the_last_digit(v: nat, d: u8)
    requires
        d < 10,
    ensures
        v > 0 ==> decimal((10 * v + d) as nat) == decimal(v) + decimal(d as nat),
        decimal(d as nat).len() == 1,
        decimal(d as nat)[0] as int == '0' as int + d,
{
    reveal_strlit("0");
    reveal_strlit("1");
    reveal_strlit("2");
    reveal_strlit("3");
    reveal_strlit("4");
    reveal_strlit("5");
    reveal_strlit("6");
    reveal_strlit("7");
    reveal_strlit("8");
    reveal_strlit("9");
    let n: nat = (10 * v + d) as nat;
    assert(n / 10 == v && n % 10 == d);
}

/// The text that rejects a version names both versions.
pub proof fn rejection_names_both_versions(version: u8)
    ensures
        ("version "@ + decimal(version as nat)).is_prefix_of(unsupported_version(version)),
        (decimal(1) + ")"@).is_suffix_of(unsupported_version(version)),
{
    let t = unsupported_version(version);
    let a = "version "@ + decimal(version as nat);
    let b = decimal(1) + ")"@;
    assert(t.subrange(0, a.len() as int) =~= a);
    assert(t.subrange(t.len() - b.len(), t.len() as int) =~= b);
}

} // verus!
