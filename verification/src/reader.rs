//! Cutting a GDSII byte stream into records.
//!
//! Each record starts with a big-endian two-byte length (the whole record,
//! header included), then a record type byte and a data type byte; the
//! payload fills the rest of the record.
use vstd::prelude::*;
use crate::bytes::{be16, read_be_u16};
use crate::types::{GdsError, GdsRecord};

verus! {

/// What reading a record at `pos` of `data` gives: the record type, the
/// payload and the position after the record, or an error.
pub open spec fn record_at(data: Seq<u8>, pos: int) -> Result<(u8, Seq<u8>, int), GdsError> {
    if pos + 2 > data.len() {
        Err(GdsError::UnexpectedEof)
    } else {
        let length = be16(data[pos], data[pos + 1]);
        if length < 4 {
            Err(GdsError::RecordTooShort { length: length as u16 })
        } else if pos + length > data.len() {
            Err(GdsError::TruncatedRecord)
        } else {
            Ok((data[pos + 2], data.subrange(pos + 4, pos + length), pos + length))
        }
    }
}

/// Where the reader stands after reading at `pos` of `data`, whether the
/// read succeeds or not: past the record; past the two length bytes where
/// the length is under 4; at the end of the stream where the stream ends
/// inside the length field or inside the record (the bytes that were there
/// are consumed).
pub open spec fn position_after(data: Seq<u8>, pos: int) -> int {
    if pos + 2 > data.len() {
        data.len() as int
    } else {
        let length = be16(data[pos], data[pos + 1]);
        if length < 4 {
            pos + 2
        } else if pos + length > data.len() {
            data.len() as int
        } else {
            pos + length
        }
    }
}

/// A reader of records over the bytes of a stream.
pub struct GdsReader {
    data: Vec<u8>,
    pos: usize,
}

impl GdsReader {
    /// The bytes of the stream.
    pub closed spec fn bytes(&self) -> Seq<u8> {
        self.data@
    }

    /// How many bytes the records read so far took.
    pub closed spec fn position(&self) -> int {
        self.pos as int
    }

    #[verifier::type_invariant]
    spec fn wf(&self) -> bool {
        self.pos <= self.data@.len()
    }

    /// A reader positioned at the start of `data`.
    pub fn new(data: Vec<u8>) -> (r: GdsReader)
        ensures
            r.bytes() == data@,
            r.position() == 0,
    {
        GdsReader { data, pos: 0 }
    }

    /// Reads the next record. On success the reader moves past the record;
    /// on failure it moves past the bytes it consumed before it found the
    /// error (see `position_after`).
    pub fn read_record(&mut self) -> (res: Result<GdsRecord, GdsError>)
        ensures
            final(self).bytes() == old(self).bytes(),
            final(self).position() == position_after(old(self).bytes(), old(self).position()),
            match (res, record_at(old(self).bytes(), old(self).position())) {
                (Ok(rec), Ok((rt, payload, _))) => rec.classifies(rt, payload),
                (Err(e), Err(f)) => e == f,
                _ => false,
            },
    {
        proof {
            use_type_invariant(&*self);
        }
        let avail = self.data.len() - self.pos;
        if avail < 2 {
            self.pos = self.data.len();
            return Err(GdsError::UnexpectedEof);
        }
        let length = read_be_u16(&self.data.as_slice()[self.pos..self.pos + 2]);
        if length < 4 {
            self.pos = self.pos + 2;
            return Err(GdsError::RecordTooShort { length });
        }
        let len = length as usize;
        if avail < len {
            self.pos = self.data.len();
            return Err(GdsError::TruncatedRecord);
        }
        let record_type = self.data[self.pos + 2];
        let mut payload: Vec<u8> = Vec::new();
        let mut i = self.pos + 4;
        let end = self.pos + len;
        while i < end
            invariant
                self.pos + 4 <= i <= end <= self.data@.len(),
                payload@ == self.data@.subrange(self.pos + 4, i as int),
            decreases end - i,
        {
            payload.push(self.data[i]);
            i = i + 1;
        }
        self.pos = end;
        Ok(GdsRecord::classify(record_type, payload))
    }
}

} // verus!
