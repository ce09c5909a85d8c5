//! Clearing a program that an earlier run left on an interface.

use vstd::prelude::*;

verus! {

/// A 16-bit number as the machine keeps it.
pub open spec fn native16(x: int, little: bool) -> Seq<u8> {
    if little {
        seq![(x % 256) as u8, (x / 256) as u8]
    } else {
        seq![(x / 256) as u8, (x % 256) as u8]
    }
}

/// A 32-bit number as the machine keeps it.
pub open spec fn native32(x: int, little: bool) -> Seq<u8> {
    if little {
        native16(x % 0x1_0000, true) + native16(x / 0x1_0000, true)
    } else {
        native16(x / 0x1_0000, false) + native16(x % 0x1_0000, false)
    }
}

/// The message that takes any program off an interface: a link change with the
/// program's descriptor set to minus one.
pub open spec fn detach_request(ifindex: u32, little: bool) -> Seq<u8> {
    native32(44, little) + native16(16, little) + native16(5, little) + native32(1, little)
        + native32(0, little) + seq![0u8, 0] + native16(0, little) + native32(
        ifindex as int,
        little,
    ) + native32(0, little) + native32(0, little) + native16(12, little) + native16(0x802B, little)
        + native16(8, little) + native16(1, little) + native32(0xFFFF_FFFF, little)
}

fn push16(buf: &mut Vec<u8>, x: u16, little: bool)
    ensures
        final(buf)@ == old(buf)@ + native16(x as int, little),
{
    let (hi, lo): (u8, u8) = ((x / 256) as u8, (x % 256) as u8);
    if little {
        buf.push(lo);
        buf.push(hi);
    } else {
        buf.push(hi);
        buf.push(lo);
    }
    assert(buf@ =~= old(buf)@ + native16(x as int, little));
}

fn push32(buf: &mut Vec<u8>, x: u32, little: bool)
    ensures
        final(buf)@ == old(buf)@ + native32(x as int, little),
{
    let (hi, lo): (u16, u16) = ((x / 0x1_0000) as u16, (x % 0x1_0000) as u16);
    if little {
        push16(buf, lo, little);
        push16(buf, hi, little);
    } else {
        push16(buf, hi, little);
        push16(buf, lo, little);
    }
    assert(buf@ =~= old(buf)@ + native32(x as int, little));
}

/// Builds the message that takes any program off an interface.
pub fn detach_message(ifindex: u32, little: bool) -> (buf: Vec<u8>)
    ensures
        buf@ == detach_request(ifindex, little),
        buf@.len() == 44,
{
    let mut buf: Vec<u8> = Vec::with_capacity(48);
    push32(&mut buf, 44, little);
    push16(&mut buf, 16, little);
    push16(&mut buf, 5, little);
    push32(&mut buf, 1, little);
    push32(&mut buf, 0, little);
    buf.push(0);
    buf.push(0);
    assert(buf@ =~= native32(44, little) + native16(16, little) + native16(5, little) + native32(
        1,
        little,
    ) + native32(0, little) + seq![0u8, 0]);
    push16(&mut buf, 0, little);
    push32(&mut buf, ifindex, little);
    push32(&mut buf, 0, little);
    push32(&mut buf, 0, little);
    push16(&mut buf, 12, little);
    push16(&mut buf, 0x802B, little);
    push16(&mut buf, 8, little);
    push16(&mut buf, 1, little);
    push32(&mut buf, 0xFFFF_FFFF, little);
    buf
}

/// A number in the machine's order is that number again when it is read in that order.
pub proof fn native_numbers_are_read_back(x: u32, y: u16)
    ensures
        ({
            let b = native32(x as int, true);
            b.len() == 4 && b[0] + 256 * b[1] + 65_536 * b[2] + 16_777_216 * b[3] == x
        }),
        ({
            let b = native32(x as int, false);
            b.len() == 4 && b[3] + 256 * b[2] + 65_536 * b[1] + 16_777_216 * b[0] == x
        }),
        ({
            let b = native16(y as int, true);
            b.len() == 2 && b[0] + 256 * b[1] == y
        }),
        ({
            let b = native16(y as int, false);
            b.len() == 2 && b[1] + 256 * b[0] == y
        }),
{
}

/// The message names the interface and takes its program off, place by place: its length,
/// a change of a link that is to be confirmed, the interface, and nested in an attribute
/// of the program a descriptor of minus one.
pub proof fn request_names_its_interface(ifindex: u32)
    ensures
        ({
            let m = detach_request(ifindex, true);
            &&& m.len() == 44
            &&& m[0] == 44 && m[1] == 0 && m[2] == 0 && m[3] == 0
            &&& m[4] == 16 && m[5] == 0
            &&& m[6] == 5 && m[7] == 0
            &&& m[8] == 1 && m[9] == 0 && m[10] == 0 && m[11] == 0
            &&& forall|i: int| 12 <= i < 20 || 24 <= i < 32 ==> #[trigger] m[i] == 0
            &&& m[20] + 256 * m[21] + 65_536 * m[22] + 16_777_216 * m[23] == ifindex
            &&& m[32] == 12 && m[33] == 0
            &&& m[34] == 0x2B && m[35] == 0x80
            &&& m[36] == 8 && m[37] == 0
            &&& m[38] == 1 && m[39] == 0
            &&& m[40] == 0xFF && m[41] == 0xFF && m[42] == 0xFF && m[43] == 0xFF
        }),
{
}

} // verus!
