//! The rows of captured packet information that user space stores and the
//! HTTP API reports, built from the records the XDP program emits.

use vstd::prelude::*;
use crate::address::{dotted_text, format_ipv4, std_ipv4_addr, lemma_parse_format};
use crate::firewall::{firewall_decision, source_address};
use crate::package::{
    lemma_decode_encode, protocol_of, PackageInfo as Record, ProtocalType, PINFOLEN,
};

verus! {

/// One stored row of captured packet information.
#[derive(Debug, Clone)]
pub struct PackageInfo {
    pub source_ip: String,
    pub source_port: i64,
    pub destination_port: i64,
    pub proto_type: String,
}

/// The name stored for a protocol.
pub open spec fn protocol_name(p: ProtocalType) -> Seq<char> {
    match p {
        ProtocalType::TCP => seq!['T', 'C', 'P'],
        ProtocalType::UDP => seq!['U', 'D', 'P'],
        ProtocalType::Unknown => seq!['U', 'n', 'k', 'n', 'o', 'w', 'n'],
    }
}

/// The name stored for a protocol: `TCP`, `UDP` or `Unknown`.
pub fn proto_name(p: &ProtocalType) -> (r: String)
    ensures
        r@ == protocol_name(*p),
{
    match p {
        ProtocalType::TCP => {
            proof {
                reveal_strlit("TCP");
            }
            String::from_str("TCP")
        },
        ProtocalType::UDP => {
            proof {
                reveal_strlit("UDP");
            }
            String::from_str("UDP")
        },
        ProtocalType::Unknown => {
            proof {
                reveal_strlit("Unknown");
            }
            String::from_str("Unknown")
        },
    }
}

impl PackageInfo {
    /// The row stored for a record: the source address in dotted-decimal
    /// form, the ports, and the protocol's name.
    pub open spec fn spec_from_record(info: Record) -> (Seq<char>, int, int, Seq<char>) {
        (
            dotted_text(info.source_ip),
            info.source_port as int,
            info.destination_port as int,
            protocol_name(protocol_of(info.proto_type)),
        )
    }

    /// The row stored for a record read from the ring buffer.
    pub fn from_record(info: &Record) -> (r: PackageInfo)
        ensures
            (r.source_ip@, r.source_port as int, r.destination_port as int, r.proto_type@)
                == PackageInfo::spec_from_record(*info),
    {
        let proto = info.proto_type();
        PackageInfo {
            source_ip: format_ipv4(info.source_ip),
            source_port: info.source_port as i64,
            destination_port: info.destination_port as i64,
            proto_type: proto_name(&proto),
        }
    }
}

/// The record in the first [`PINFOLEN`] bytes of a ring-buffer event, if
/// the event is that long.
pub fn event_record(event: &[u8]) -> (r: Option<Record>)
    ensures
        r == (if event@.len() >= PINFOLEN {
            Some(Record::decoding(event@.take(PINFOLEN as int)))
        } else {
            None::<Record>
        }),
{
    if event.len() < PINFOLEN {
        return None;
    }
    let bytes: [u8; PINFOLEN] = [
        event[0],
        event[1],
        event[2],
        event[3],
        event[4],
        event[5],
        event[6],
        event[7],
        event[8],
    ];
    assert(bytes@ =~= event@.take(PINFOLEN as int));
    Some(Record::from_bytes(&bytes))
}

/// What the firewall reports about a packet reaches the stored row intact:
/// the record it emits, encoded into the ring buffer and decoded by user
/// space, gives the row whose address text reads back as the packet's
/// source address, with the packet's ports and protocol.
pub proof fn lemma_reported_packet_row(p: Seq<u8>, blocked: Set<u32>)
    requires
        firewall_decision(p, blocked) matches Ok(v) && v.record is Some,
    ensures
        ({
            let rec = firewall_decision(p, blocked)->Ok_0.record->Some_0;
            let row = PackageInfo::spec_from_record(Record::decoding(rec.encoding()));
            &&& std_ipv4_addr(row.0) == Some(source_address(p))
            &&& row.1 == rec.source_port
            &&& row.2 == rec.destination_port
            &&& row.3 == protocol_name(protocol_of(rec.proto_type))
        }),
{
    let rec = firewall_decision(p, blocked)->Ok_0.record->Some_0;
    lemma_decode_encode(rec);
    lemma_parse_format(rec.source_ip);
}

} // verus!
