//! RPM package headers.
use crate::model::PkgError;
use vstd::prelude::*;
use vstd::string::StringExecFns;

pub mod tag;

verus! {

/// One index entry of an RPM header.
#[derive(Debug, Clone, Copy, PartialEq, Eq, Structural)]
pub struct HeaderEntry {
    pub tag: u32,
    pub entry_type: u32,
    pub offset: u32,
    pub count: u32,
}

/// The big-endian 32-bit integer at `data[at..at + 4]`.
pub open spec fn be32(data: Seq<u8>, at: int) -> u32 {
    (data[at] as int * 16777216 + data[at + 1] as int * 65536 + data[at + 2] as int * 256
        + data[at + 3] as int) as u32
}

fn read_be32(data: &[u8], at: usize) -> (r: u32)
    requires
        at + 4 <= data@.len(),
    ensures
        r == be32(data@, at as int),
{
    let a = data[at] as u32;
    let b = data[at + 1] as u32;
    let c = data[at + 2] as u32;
    let d = data[at + 3] as u32;
    assert(a * 16777216 + b * 65536 + c * 256 + d <= u32::MAX) by (nonlinear_arith)
        requires
            a <= 255,
            b <= 255,
            c <= 255,
            d <= 255,
    ;
    a * 16777216 + b * 65536 + c * 256 + d
}

pub open spec fn has_magic(data: Seq<u8>) -> bool {
    data[0] == 0x8e && data[1] == 0xad && data[2] == 0xe8 && data[3] == 0x01
}

/// Index entries present: as many as the header announces, as far as the
/// data holds whole 16-byte entries.
pub open spec fn entry_count(data: Seq<u8>) -> int {
    let announced = be32(data, 8) as int;
    let room = (data.len() - 16) / 16;
    if announced < room {
        announced
    } else {
        room
    }
}

pub open spec fn entry_at(data: Seq<u8>, i: int) -> HeaderEntry {
    let o = 16 + 16 * i;
    HeaderEntry { tag: be32(data, o), entry_type: be32(data, o + 4), offset: be32(data, o + 8), count: be32(data, o + 12) }
}

/// Parses the index of an RPM header: the magic `8e ad e8 01`, the entry
/// count at bytes 8..12, then 16-byte entries from byte 16 on.
pub fn parse_header(data: &[u8]) -> (r: Result<Vec<HeaderEntry>, PkgError>)
    ensures
        data@.len() < 16 ==> (r matches Err(PkgError::ExtractionError(m)) && m@ == "Header too short"@),
        data@.len() >= 16 && !has_magic(data@) ==> (r matches Err(PkgError::ExtractionError(m)) && m@
            == "Invalid header magic"@),
        data@.len() >= 16 && has_magic(data@) ==> (r matches Ok(v) && v@.len() == entry_count(data@)
            && forall|i: int| 0 <= i < v@.len() ==> v@[i] == entry_at(data@, i)),
{
    if data.len() < 16 {
        return Err(PkgError::ExtractionError(String::from_str("Header too short")));
    }
    if !(data[0] == 0x8e && data[1] == 0xad && data[2] == 0xe8 && data[3] == 0x01) {
        return Err(PkgError::ExtractionError(String::from_str("Invalid header magic")));
    }
    let num_entries = read_be32(data, 8) as usize;
    let _data_size = read_be32(data, 12) as usize;
    let mut entries: Vec<HeaderEntry> = Vec::new();
    let mut i: usize = 0;
    while i < num_entries && 16 <= data.len() - 16 - i * 16
        invariant
            data@.len() >= 16,
            num_entries == be32(data@, 8),
            i <= num_entries,
            16 + 16 * i <= data@.len(),
            entries@.len() == i,
            forall|k: int| 0 <= k < i ==> entries@[k] == entry_at(data@, k),
        decreases num_entries - i,
    {
        let offset = 16 + i * 16;
        let tag = read_be32(data, offset);
        let entry_type = read_be32(data, offset + 4);
        let data_offset = read_be32(data, offset + 8);
        let count = read_be32(data, offset + 12);
        entries.push(HeaderEntry { tag, entry_type, offset: data_offset, count });
        i = i + 1;
    }
    proof {
        let room = (data@.len() - 16) / 16;
        if i < num_entries {
            assert(data@.len() - 16 - i * 16 < 16);
            assert(i == room) by (nonlinear_arith)
                requires
                    data@.len() - 16 - i * 16 < 16,
                    16 + 16 * i <= data@.len(),
                    room == (data@.len() - 16) / 16,
            ;
        } else {
            assert(i <= room) by (nonlinear_arith)
                requires
                    16 + 16 * i <= data@.len(),
                    room == (data@.len() - 16) / 16,
            ;
        }
    }
    Ok(entries)
}

} // verus!
