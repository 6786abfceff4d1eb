//! The record that the packet path emits for every IPv4 packet it judges.
use vstd::prelude::*;

verus! {

/// Size in bytes of a `LogEvent` as laid out in memory (`repr(C)`).
pub const LOG_EVENT_SIZE: usize = 10;

/// One decision of the packet path, as handed to the user-space program.
#[derive(Clone, Copy, Debug, PartialEq, Eq)]
pub struct LogEvent {
    pub src_ip: [u8; 4],
    pub source_port: u16,
    pub dest_port: u16,
    pub protocol: u8,
    pub action: u8,
}

/// The value of two bytes read least significant first.
pub open spec fn le_u16(b0: u8, b1: u8) -> u16 {
    (b1 as int * 256 + b0 as int) as u16
}

/// The value of two bytes read most significant first.
pub open spec fn be_u16(b0: u8, b1: u8) -> u16 {
    (b0 as int * 256 + b1 as int) as u16
}

/// Reads two consecutive `u16` values stored in the machine's own byte
/// order, each by `u16::from_ne_bytes`. Which order that is depends on the
/// machine, so the contract says only that both are read in the same one of
/// the two orders.
#[verifier::external_body]
fn u16_pair_from_ne_bytes(b: [u8; 4]) -> (r: (u16, u16))
    ensures
        (r.0 == le_u16(b[0], b[1]) && r.1 == le_u16(b[2], b[3])) || (r.0 == be_u16(b[0], b[1])
            && r.1 == be_u16(b[2], b[3])),
{
    (u16::from_ne_bytes([b[0], b[1]]), u16::from_ne_bytes([b[2], b[3]]))
}

/// `ev` is what the bytes `data` hold in the `repr(C)` layout of `LogEvent`,
/// with both ports read in the same one of the two byte orders.
pub open spec fn decodes_to(data: Seq<u8>, ev: LogEvent) -> bool {
    &&& data.len() >= LOG_EVENT_SIZE
    &&& ev.src_ip@ == data.subrange(0, 4)
    &&& ((ev.source_port == le_u16(data[4], data[5]) && ev.dest_port == le_u16(data[6], data[7]))
        || (ev.source_port == be_u16(data[4], data[5]) && ev.dest_port == be_u16(data[6], data[7])))
    &&& ev.protocol == data[8]
    &&& ev.action == data[9]
}

/// Reads a `LogEvent` from the start of a ring-buffer record; a record too
/// short to hold one gives `None`.
pub fn decode_log_event(data: &[u8]) -> (r: Option<LogEvent>)
    ensures
        r is None <==> data@.len() < LOG_EVENT_SIZE,
        r matches Some(ev) ==> decodes_to(data@, ev),
{
    if data.len() < LOG_EVENT_SIZE {
        return None;
    }
    let src_ip: [u8; 4] = [data[0], data[1], data[2], data[3]];
    let (source_port, dest_port) = u16_pair_from_ne_bytes([data[4], data[5], data[6], data[7]]);
    let ev = LogEvent { src_ip, source_port, dest_port, protocol: data[8], action: data[9] };
    assert(ev.src_ip@ =~= data@.subrange(0, 4));
    Some(ev)
}

} // verus!
