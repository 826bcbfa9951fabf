use vstd::prelude::*;
use vstd::string::StringExecFns;
use vstd::string::StringSliceAdditionalSpecFns;

use crate::errors::{DeviceError, ErrorKind, Res};

verus! {

/// The two stream directions of an audio endpoint.
#[derive(Clone, Copy, Debug, PartialEq, Eq, Structural)]
pub enum Direction {
    Render,
    Capture,
}

/// What the host learns about one device of the flat directory.
#[allow(non_snake_case)]
pub struct MixerDesc {
    pub deviceID: String,
    pub max_lines: usize,
    pub name: String,
    pub description: String,
}

/// The character for one decimal digit.
pub open spec fn digit_char(d: nat) -> char {
    if d == 0 { '0' }
    else if d == 1 { '1' }
    else if d == 2 { '2' }
    else if d == 3 { '3' }
    else if d == 4 { '4' }
    else if d == 5 { '5' }
    else if d == 6 { '6' }
    else if d == 7 { '7' }
    else if d == 8 { '8' }
    else { '9' }
}

/// The decimal spelling of a number, most significant digit first.
pub open spec fn spec_decimal(n: nat) -> Seq<char>
    decreases n,
{
    if n < 10 {
        seq![digit_char(n)]
    } else {
        spec_decimal(n / 10) + seq![digit_char(n % 10)]
    }
}

fn digit_str(d: u32) -> (r: &'static str)
    requires
        d < 10,
    ensures
        r@ == seq![digit_char(d as nat)],
{
    proof {
        reveal_strlit("0");
        reveal_strlit("1");
        reveal_strlit("2");
        reveal_strlit("3");
        reveal_strlit("4");
        reveal_strlit("5");
        reveal_strlit("6");
        reveal_strlit("7");
        reveal_strlit("8");
        reveal_strlit("9");
    }
    match d {
        0 => "0",
        1 => "1",
        2 => "2",
        3 => "3",
        4 => "4",
        5 => "5",
        6 => "6",
        7 => "7",
        8 => "8",
        _ => "9",
    }
}

/// Spells a number in decimal, the form device ids take in the directory.
pub fn u32_to_decimal(n: u32) -> (s: String)
    ensures
        s@ == spec_decimal(n as nat),
    decreases n,
{
    if n < 10 {
        digit_str(n).to_owned()
    } else {
        let mut s = u32_to_decimal(n / 10);
        s.append(digit_str(n % 10));
        s
    }
}

/// Whether the bytes spell a number the directory accepts as a device id:
/// one or more decimal digits, with an optional leading plus sign.
pub open spec fn is_decimal_id(b: Seq<u8>) -> bool {
    if b.len() > 0 && b[0] == 43u8 {
        is_digit_seq(b.skip(1)) && b.len() > 1
    } else {
        is_digit_seq(b) && b.len() > 0
    }
}

pub open spec fn is_digit_seq(b: Seq<u8>) -> bool {
    forall|i: int| 0 <= i < b.len() ==> 48 <= #[trigger] b[i] <= 57
}

/// The number a sequence of decimal digit bytes spells.
pub open spec fn digit_seq_value(b: Seq<u8>) -> nat
    decreases b.len(),
{
    if b.len() == 0 {
        0
    } else {
        digit_seq_value(b.drop_last()) * 10 + (b.last() - 48) as nat
    }
}

/// The value of a device id string, sign byte skipped.
pub open spec fn decimal_id_value(b: Seq<u8>) -> nat {
    if b.len() > 0 && b[0] == 43u8 {
        digit_seq_value(b.skip(1))
    } else {
        digit_seq_value(b)
    }
}

/// Reads a device id back into the directory index it spells.
pub fn parse_device_id(s: &str) -> (r: Res<u32>)
    ensures
        r is Ok <==> is_decimal_id(s.spec_bytes()) && decimal_id_value(s.spec_bytes())
            <= u32::MAX,
        r matches Ok(v) ==> v == decimal_id_value(s.spec_bytes()),
        r matches Err(e) ==> e.kind == ErrorKind::DeviceNotFound,
{
    let b = s.as_bytes();
    let ghost whole: Seq<u8> = b@;
    let mut i: usize = 0;
    if b.len() > 0 && b[0] == 43u8 {
        i = 1;
    }
    let ghost digits: Seq<u8> = whole.skip(i as int);
    if i == b.len() {
        return Err(DeviceError::with_kind(ErrorKind::DeviceNotFound, "empty device id"));
    }
    let start = i;
    let mut acc: u64 = 0;
    while i < b.len()
        invariant
            start <= i <= b.len(),
            whole == b@,
            whole == s.spec_bytes(),
            digits == whole.skip(start as int),
            start == (if whole.len() > 0 && whole[0] == 43u8 { 1int } else { 0int }),
            start < whole.len(),
            is_digit_seq(digits.take(i - start)),
            acc == digit_seq_value(digits.take(i - start)),
            acc <= u32::MAX,
        decreases b.len() - i,
    {
        let c = b[i];
        if c < 48 || c > 57 {
            proof {
                assert(digits[i - start] == whole[i as int]);
                assert(!(48 <= digits[i - start] <= 57));
                assert(whole.skip(0) == whole);
                assert(!is_digit_seq(digits));
                assert(!is_decimal_id(whole));
            }
            return Err(DeviceError::with_kind(ErrorKind::DeviceNotFound, "not a number"));
        }
        let d: u64 = (c - 48) as u64;
        let next: u64 = acc * 10 + d;
        proof {
            assert(digits.take(i + 1 - start).drop_last() == digits.take(i - start));
            assert(digits.take(i + 1 - start).last() == whole[i as int]);
        }
        if next > u32::MAX as u64 {
            proof {
                assert(whole.skip(0) == whole);
                if is_digit_seq(digits) {
                    lemma_digit_seq_value_grows(digits, i + 1 - start);
                }
            }
            return Err(DeviceError::with_kind(ErrorKind::DeviceNotFound, "id out of range"));
        }
        acc = next;
        i = i + 1;
    }
    proof {
        assert(digits.take(i - start) == digits);
        assert(whole.skip(0) == whole);
    }
    Ok(acc as u32)
}

/// A longer digit string never spells a smaller number.
proof fn lemma_digit_seq_value_grows(b: Seq<u8>, k: int)
    requires
        0 <= k <= b.len(),
        is_digit_seq(b),
    ensures
        digit_seq_value(b.take(k)) <= digit_seq_value(b),
    decreases b.len() - k,
{
    if k < b.len() {
        assert(b.take(k + 1).drop_last() == b.take(k));
        lemma_digit_seq_value_grows(b, k + 1);
    } else {
        assert(b.take(k) == b);
    }
}

/// Resolves a flat directory index: render devices come first, capture
/// devices after them, and anything past both collections is not found.
pub fn locate_device(idx: u32, render_cnt: u32, capture_cnt: u32) -> (r: Res<(Direction, u32)>)
    ensures
        idx < render_cnt ==> r == Res::<(Direction, u32)>::Ok((Direction::Render, idx)),
        render_cnt <= idx && idx < render_cnt + capture_cnt ==> r == Res::<(Direction,
            u32,
        )>::Ok((Direction::Capture, (idx - render_cnt) as u32)),
        idx >= render_cnt + capture_cnt ==> r is Err && (r matches Err(e) ==> e.kind
            == ErrorKind::DeviceNotFound),
{
    if idx < render_cnt {
        Ok((Direction::Render, idx))
    } else if idx - render_cnt < capture_cnt {
        Ok((Direction::Capture, idx - render_cnt))
    } else {
        Err(DeviceError::with_kind(ErrorKind::DeviceNotFound, "device index out of range"))
    }
}

/// The flat directory size: the render and capture collections together.
pub fn do_get_device_cnt(render_cnt: u32, capture_cnt: u32) -> (r: Res<u32>)
    requires
        render_cnt + capture_cnt <= u32::MAX,
    ensures
        r == Res::<u32>::Ok((render_cnt + capture_cnt) as u32),
{
    Ok(render_cnt + capture_cnt)
}

/// Builds the host-facing description of the device at a directory index.
/// The id is the index spelled in decimal; the display name marks the
/// exclusive-mode path; one line per device.
pub fn do_get_mixer_desc(idx: u32, name: &str, description: String) -> (desc: MixerDesc)
    ensures
        desc.deviceID@ == spec_decimal(idx as nat),
        desc.max_lines == 1,
        desc.name@ == "EXCL: "@ + name@,
        desc.description == description,
{
    proof {
        reveal_strlit("EXCL: ");
    }
    MixerDesc {
        deviceID: u32_to_decimal(idx),
        max_lines: 1,
        name: "EXCL: ".to_owned().concat(name),
        description,
    }
}

} // verus!
