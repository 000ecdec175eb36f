//! Record kinds of the GDSII stream format and the errors of reading one.
use vstd::prelude::*;
use crate::text::{decimal, hex2, push_decimal, push_hex2};

verus! {

pub const DTYPE_NO_DATA: u8 = 0x00;
pub const DTYPE_BIT_ARRAY: u8 = 0x01;
pub const DTYPE_INT2: u8 = 0x02;
pub const DTYPE_INT4: u8 = 0x03;
pub const DTYPE_REAL4: u8 = 0x04;
pub const DTYPE_REAL8: u8 = 0x05;
pub const DTYPE_ASCII: u8 = 0x06;

pub const RT_HEADER: u8 = 0x00;
pub const RT_BGNLIB: u8 = 0x01;
pub const RT_LIBNAME: u8 = 0x02;
pub const RT_UNITS: u8 = 0x03;
pub const RT_ENDLIB: u8 = 0x04;
pub const RT_BGNSTR: u8 = 0x05;
pub const RT_STRNAME: u8 = 0x06;
pub const RT_ENDSTR: u8 = 0x07;
pub const RT_BOUNDARY: u8 = 0x08;
pub const RT_PATH: u8 = 0x09;
pub const RT_SREF: u8 = 0x0A;
pub const RT_AREF: u8 = 0x0B;
pub const RT_TEXT: u8 = 0x0C;
pub const RT_LAYER: u8 = 0x0D;
pub const RT_DATATYPE: u8 = 0x0E;
pub const RT_WIDTH: u8 = 0x0F;
pub const RT_XY: u8 = 0x10;
pub const RT_ENDEL: u8 = 0x11;
pub const RT_SNAME: u8 = 0x12;
pub const RT_COLROW: u8 = 0x13;
pub const RT_TEXTTYPE: u8 = 0x16;
pub const RT_PRESENTATION: u8 = 0x17;
pub const RT_STRING: u8 = 0x19;
pub const RT_STRANS: u8 = 0x1A;
pub const RT_MAG: u8 = 0x1B;
pub const RT_ANGLE: u8 = 0x1C;
pub const RT_PATHTYPE: u8 = 0x21;
pub const RT_GENERATIONS: u8 = 0x22;
pub const RT_ELFLAGS: u8 = 0x26;
pub const RT_NODETYPE: u8 = 0x2A;
pub const RT_PROPATTR: u8 = 0x2B;
pub const RT_PROPVALUE: u8 = 0x2C;
pub const RT_BOX: u8 = 0x2D;
pub const RT_BOXTYPE: u8 = 0x2E;
pub const RT_PLEX: u8 = 0x2F;
pub const RT_FORMAT: u8 = 0x36;
pub const RT_MASK: u8 = 0x37;
pub const RT_ENDMASKS: u8 = 0x38;

/// One record of a stream, classified by its record type. Records whose
/// kind carries a payload keep it as raw bytes.
#[derive(Debug, Clone, PartialEq)]
pub enum GdsRecord {
    Header(Vec<u8>),
    BgnLib(Vec<u8>),
    LibName(Vec<u8>),
    Units(Vec<u8>),
    EndLib,
    BgnStr(Vec<u8>),
    StrName(Vec<u8>),
    EndStr,
    Boundary,
    Path,
    Sref,
    Aref,
    Text,
    EndEl,
    Layer(Vec<u8>),
    DataType(Vec<u8>),
    Width(Vec<u8>),
    XY(Vec<u8>),
    SName(Vec<u8>),
    ColRow(Vec<u8>),
    STrans(Vec<u8>),
    Mag(Vec<u8>),
    Angle(Vec<u8>),
    TextType(Vec<u8>),
    Presentation(Vec<u8>),
    String(Vec<u8>),
    PathType(Vec<u8>),
    Generations(Vec<u8>),
    ElFlags(Vec<u8>),
    PropAttr(Vec<u8>),
    PropValue(Vec<u8>),
    Plex(Vec<u8>),
    Box,
    BoxType(Vec<u8>),
    Format(Vec<u8>),
    Mask(Vec<u8>),
    EndMasks,
    Unknown { record_type: u8, data: Vec<u8> },
}

/// The record types that have a variant of their own in `GdsRecord`.
pub open spec fn is_known_record_type(rt: u8) -> bool {
    ||| 0x00 <= rt <= 0x13
    ||| rt == RT_TEXTTYPE || rt == RT_PRESENTATION || rt == RT_STRING || rt == RT_STRANS
    ||| rt == RT_MAG || rt == RT_ANGLE || rt == RT_PATHTYPE || rt == RT_GENERATIONS
    ||| rt == RT_ELFLAGS || rt == RT_PROPATTR || rt == RT_PROPVALUE || rt == RT_BOX
    ||| rt == RT_BOXTYPE || rt == RT_PLEX || rt == RT_FORMAT || rt == RT_MASK
    ||| rt == RT_ENDMASKS
}

/// The known record types whose variant carries no payload.
pub open spec fn is_marker_record_type(rt: u8) -> bool {
    ||| rt == RT_ENDLIB || rt == RT_ENDSTR || rt == RT_BOUNDARY || rt == RT_PATH
    ||| rt == RT_SREF || rt == RT_AREF || rt == RT_TEXT || rt == RT_ENDEL
    ||| rt == RT_BOX || rt == RT_ENDMASKS
}

/// Whether a record of type `rt` keeps its payload.
pub open spec fn keeps_payload(rt: u8) -> bool {
    !is_known_record_type(rt) || !is_marker_record_type(rt)
}

impl GdsRecord {
    /// The record type byte that this record was read with.
    pub open spec fn type_code(self) -> u8 {
        match self {
            GdsRecord::Header(_) => RT_HEADER,
            GdsRecord::BgnLib(_) => RT_BGNLIB,
            GdsRecord::LibName(_) => RT_LIBNAME,
            GdsRecord::Units(_) => RT_UNITS,
            GdsRecord::EndLib => RT_ENDLIB,
            GdsRecord::BgnStr(_) => RT_BGNSTR,
            GdsRecord::StrName(_) => RT_STRNAME,
            GdsRecord::EndStr => RT_ENDSTR,
            GdsRecord::Boundary => RT_BOUNDARY,
            GdsRecord::Path => RT_PATH,
            GdsRecord::Sref => RT_SREF,
            GdsRecord::Aref => RT_AREF,
            GdsRecord::Text => RT_TEXT,
            GdsRecord::EndEl => RT_ENDEL,
            GdsRecord::Layer(_) => RT_LAYER,
            GdsRecord::DataType(_) => RT_DATATYPE,
            GdsRecord::Width(_) => RT_WIDTH,
            GdsRecord::XY(_) => RT_XY,
            GdsRecord::SName(_) => RT_SNAME,
            GdsRecord::ColRow(_) => RT_COLROW,
            GdsRecord::STrans(_) => RT_STRANS,
            GdsRecord::Mag(_) => RT_MAG,
            GdsRecord::Angle(_) => RT_ANGLE,
            GdsRecord::TextType(_) => RT_TEXTTYPE,
            GdsRecord::Presentation(_) => RT_PRESENTATION,
            GdsRecord::String(_) => RT_STRING,
            GdsRecord::PathType(_) => RT_PATHTYPE,
            GdsRecord::Generations(_) => RT_GENERATIONS,
            GdsRecord::ElFlags(_) => RT_ELFLAGS,
            GdsRecord::PropAttr(_) => RT_PROPATTR,
            GdsRecord::PropValue(_) => RT_PROPVALUE,
            GdsRecord::Plex(_) => RT_PLEX,
            GdsRecord::Box => RT_BOX,
            GdsRecord::BoxType(_) => RT_BOXTYPE,
            GdsRecord::Format(_) => RT_FORMAT,
            GdsRecord::Mask(_) => RT_MASK,
            GdsRecord::EndMasks => RT_ENDMASKS,
            GdsRecord::Unknown { record_type, .. } => record_type,
        }
    }

    /// The payload bytes that this record carries (empty for markers).
    pub open spec fn payload(self) -> Seq<u8> {
        match self {
            GdsRecord::Header(d) => d@,
            GdsRecord::BgnLib(d) => d@,
            GdsRecord::LibName(d) => d@,
            GdsRecord::Units(d) => d@,
            GdsRecord::BgnStr(d) => d@,
            GdsRecord::StrName(d) => d@,
            GdsRecord::Layer(d) => d@,
            GdsRecord::DataType(d) => d@,
            GdsRecord::Width(d) => d@,
            GdsRecord::XY(d) => d@,
            GdsRecord::SName(d) => d@,
            GdsRecord::ColRow(d) => d@,
            GdsRecord::STrans(d) => d@,
            GdsRecord::Mag(d) => d@,
            GdsRecord::Angle(d) => d@,
            GdsRecord::TextType(d) => d@,
            GdsRecord::Presentation(d) => d@,
            GdsRecord::String(d) => d@,
            GdsRecord::PathType(d) => d@,
            GdsRecord::Generations(d) => d@,
            GdsRecord::ElFlags(d) => d@,
            GdsRecord::PropAttr(d) => d@,
            GdsRecord::PropValue(d) => d@,
            GdsRecord::Plex(d) => d@,
            GdsRecord::BoxType(d) => d@,
            GdsRecord::Format(d) => d@,
            GdsRecord::Mask(d) => d@,
            GdsRecord::Unknown { data, .. } => data@,
            _ => Seq::empty(),
        }
    }

    /// The record is the one that a reader makes of type `rt` and payload
    /// `data`: its kind is fixed by `rt` and it keeps `data` where its kind
    /// carries a payload.
    pub open spec fn classifies(self, rt: u8, data: Seq<u8>) -> bool {
        &&& self.type_code() == rt
        &&& self.payload() == (if keeps_payload(rt) { data } else { Seq::<u8>::empty() })
        &&& (self is Unknown <==> !is_known_record_type(rt))
    }

    /// Makes the record of type `rt` with payload `data`.
    pub fn classify(rt: u8, data: Vec<u8>) -> (r: GdsRecord)
        ensures
            r.classifies(rt, data@),
    {
        match rt {
            0x00 => GdsRecord::Header(data),
            0x01 => GdsRecord::BgnLib(data),
            0x02 => GdsRecord::LibName(data),
            0x03 => GdsRecord::Units(data),
            0x04 => GdsRecord::EndLib,
            0x05 => GdsRecord::BgnStr(data),
            0x06 => GdsRecord::StrName(data),
            0x07 => GdsRecord::EndStr,
            0x08 => GdsRecord::Boundary,
            0x09 => GdsRecord::Path,
            0x0A => GdsRecord::Sref,
            0x0B => GdsRecord::Aref,
            0x0C => GdsRecord::Text,
            0x11 => GdsRecord::EndEl,
            0x0D => GdsRecord::Layer(data),
            0x0E => GdsRecord::DataType(data),
            0x0F => GdsRecord::Width(data),
            0x10 => GdsRecord::XY(data),
            0x12 => GdsRecord::SName(data),
            0x13 => GdsRecord::ColRow(data),
            0x1A => GdsRecord::STrans(data),
            0x1B => GdsRecord::Mag(data),
            0x1C => GdsRecord::Angle(data),
            0x16 => GdsRecord::TextType(data),
            0x17 => GdsRecord::Presentation(data),
            0x19 => GdsRecord::String(data),
            0x21 => GdsRecord::PathType(data),
            0x22 => GdsRecord::Generations(data),
            0x26 => GdsRecord::ElFlags(data),
            0x2B => GdsRecord::PropAttr(data),
            0x2C => GdsRecord::PropValue(data),
            0x2F => GdsRecord::Plex(data),
            0x2D => GdsRecord::Box,
            0x2E => GdsRecord::BoxType(data),
            0x36 => GdsRecord::Format(data),
            0x37 => GdsRecord::Mask(data),
            0x38 => GdsRecord::EndMasks,
            unknown => GdsRecord::Unknown { record_type: unknown, data },
        }
    }
}

/// What can go wrong while reading a stream.
#[derive(Debug, Clone, PartialEq)]
pub enum GdsError {
    UnexpectedEof,
    TruncatedRecord,
    RecordTooShort { length: u16 },
    UnexpectedRecord { record_type: u8, state: &'static str },
    InvalidAscii { record_type: u8 },
    UnresolvedReference { cell_name: String },
    IoError(String),
}

impl GdsError {
    /// The message that reports this error.
    pub open spec fn message_spec(self) -> Seq<char> {
        match self {
            GdsError::UnexpectedEof => "GDS parse failed: unexpected end of file"@,
            GdsError::TruncatedRecord => "GDS parse failed: stream ended mid-record"@,
            GdsError::RecordTooShort { length } => "GDS parse failed: record length "@ + decimal(
                length as nat,
            ) + " < 4"@,
            GdsError::UnexpectedRecord { record_type, state } => "GDS parse failed: record 0x"@
                + hex2(record_type) + " invalid in state '"@ + state@ + "'"@,
            GdsError::InvalidAscii { record_type } => "GDS parse failed: non-ASCII in record 0x"@
                + hex2(record_type),
            GdsError::UnresolvedReference { cell_name } => "GDS parse failed: unknown cell '"@
                + cell_name@ + "'"@,
            GdsError::IoError(msg) => "GDS I/O error: "@ + msg@,
        }
    }

    /// The message that reports this error.
    pub fn message(&self) -> (m: String)
        ensures
            m@ == self.message_spec(),
    {
        match self {
            GdsError::UnexpectedEof => String::from_str("GDS parse failed: unexpected end of file"),
            GdsError::TruncatedRecord => String::from_str("GDS parse failed: stream ended mid-record"),
            GdsError::RecordTooShort { length } => {
                let mut m = String::from_str("GDS parse failed: record length ");
                push_decimal(&mut m, *length as u64);
                m.append(" < 4");
                m
            },
            GdsError::UnexpectedRecord { record_type, state } => {
                let mut m = String::from_str("GDS parse failed: record 0x");
                push_hex2(&mut m, *record_type);
                m.append(" invalid in state '");
                m.append(state);
                m.append("'");
                m
            },
            GdsError::InvalidAscii { record_type } => {
                let mut m = String::from_str("GDS parse failed: non-ASCII in record 0x");
                push_hex2(&mut m, *record_type);
                m
            },
            GdsError::UnresolvedReference { cell_name } => {
                let mut m = String::from_str("GDS parse failed: unknown cell '");
                m.append(cell_name.as_str());
                m.append("'");
                m
            },
            GdsError::IoError(msg) => {
                let mut m = String::from_str("GDS I/O error: ");
                m.append(msg.as_str());
                m
            },
        }
    }
}

} // verus!
