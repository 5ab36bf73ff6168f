//! The crate's error taxonomy.
//!
//! Record-level encoding problems are recoverable (the record is skipped and
//! counted); corruption, bounds and overflow problems are fatal for the
//! operation that met them and carry the offsets and lengths needed to
//! diagnose them.

use vstd::prelude::*;

use crate::util::{dec_str, dec_str_signed, i128_to_string, u128_to_string, usize_to_string};

verus! {

/// A lightweight stand-in for the host's exception classes: each
/// [`MmapError`] maps onto one of these.
#[derive(PartialEq, Eq, Structural, Clone, Copy, Debug)]
pub enum RubyError {
    Arg,
    Encoding,
    Frozen,
    Index,
    Io,
    NoMem,
    PromParsing,
    Runtime,
    Type,
}

/// Errors returned within the crate.
#[derive(PartialEq, Eq, Clone, Debug)]
pub enum MmapError {
    /// A read or write was made while another caller had mutable access to
    /// the region.
    ConcurrentAccess,
    /// An error carrying a preformatted message, together with the
    /// exception class it maps to.
    Legacy { msg: String, ruby_err: RubyError },
    /// A string had invalid UTF-8 sequences.
    Encoding(String),
    /// A failed attempt to cast an integer from one type to another.
    FailedCast { from: &'static str, to: &'static str, value: String, object_name: String },
    /// The region was frozen when a mutable operation was attempted.
    Frozen,
    /// An I/O operation failed.
    Io { operation: String, path: String, err: String },
    /// A record key longer than the format allows.
    KeyLength,
    /// Failed to allocate the given number of bytes.
    OutOfMemory(usize),
    /// A memory operation fell outside of the container's bounds.
    OutOfBounds { index: String, len: String },
    /// A numeric operation overflowed.
    Overflow { value: String, added: String, op: String, ty: &'static str },
    /// A miscellaneous error.
    Other(String),
    /// A failure when parsing a region holding metrics.
    PromParsing(String),
    /// No region is open.
    UnmappedFile,
    /// A custom error message with strerror(3) appended.
    WithErrno(String),
}

/// Whether `e` is the out-of-bounds error for `index` and `len`.
pub open spec fn is_oob_err(e: MmapError, index: int, len: int) -> bool {
    &&& e matches MmapError::OutOfBounds { index: i, len: l }
    &&& i@ == dec_str(index)
    &&& l@ == dec_str(len)
}

impl MmapError {
    pub fn legacy(msg: String, ruby_err: RubyError) -> (e: Self)
        ensures
            e == (MmapError::Legacy { msg, ruby_err }),
    {
        MmapError::Legacy { msg, ruby_err }
    }

    pub fn failed_cast(from: &'static str, to: &'static str, value: u64, object_name: &str) -> (e:
        Self)
        ensures
            e matches MmapError::FailedCast { from: f, to: t, value: v, object_name: n } && f@
                == from@ && t@ == to@ && v@ == dec_str(value as int) && n@ == object_name@,
    {
        MmapError::FailedCast {
            from,
            to,
            value: u128_to_string(value as u128),
            object_name: String::from_str(object_name),
        }
    }

    pub fn io(operation: &str, path: &str, err: String) -> (e: Self)
        ensures
            e matches MmapError::Io { operation: o, path: p, err: m } && o@ == operation@ && p@
                == path@ && m == err,
    {
        MmapError::Io {
            operation: String::from_str(operation),
            path: String::from_str(path),
            err,
        }
    }

    pub fn overflowed(value: i128, added: i128, op: &str, ty: &'static str) -> (e: Self)
        requires
            value > i128::MIN,
            added > i128::MIN,
        ensures
            e matches MmapError::Overflow { value: v, added: a, op: o, ty: t } && v@
                == dec_str_signed(value as int) && a@ == dec_str_signed(added as int) && o@ == op@
                && t@ == ty@,
    {
        MmapError::Overflow {
            value: i128_to_string(value),
            added: i128_to_string(added),
            op: String::from_str(op),
            ty,
        }
    }

    pub fn out_of_bounds(index: usize, len: usize) -> (e: Self)
        ensures
            is_oob_err(e, index as int, len as int),
    {
        MmapError::OutOfBounds { index: usize_to_string(index), len: usize_to_string(len) }
    }

    /// As [`MmapError::out_of_bounds`], for an index that may not fit in a
    /// `usize`.
    pub fn out_of_bounds_wide(index: u128, len: u128) -> (e: Self)
        ensures
            is_oob_err(e, index as int, len as int),
    {
        MmapError::OutOfBounds { index: u128_to_string(index), len: u128_to_string(len) }
    }

    pub fn with_errno(msg: String) -> (e: Self)
        ensures
            e is WithErrno,
    {
        let desc = crate::util::strerror(crate::util::errno());
        let mut out = msg;
        out.append(": (");
        out.append(desc);
        out.append(")");
        MmapError::WithErrno(out)
    }

    /// The exception class this error maps to.
    pub fn ruby_err(&self) -> (r: RubyError)
        ensures
            r == self.ruby_err_spec(),
    {
        match self {
            MmapError::ConcurrentAccess => RubyError::Arg,
            MmapError::Legacy { ruby_err, .. } => *ruby_err,
            MmapError::Encoding(_) => RubyError::Encoding,
            MmapError::Io { .. } => RubyError::Io,
            MmapError::FailedCast { .. } => RubyError::Arg,
            MmapError::Frozen => RubyError::Frozen,
            MmapError::KeyLength => RubyError::Arg,
            MmapError::Overflow { .. } => RubyError::Arg,
            MmapError::OutOfBounds { .. } => RubyError::Index,
            MmapError::OutOfMemory(_) => RubyError::NoMem,
            MmapError::Other(_) => RubyError::Arg,
            MmapError::PromParsing(_) => RubyError::PromParsing,
            MmapError::UnmappedFile => RubyError::Io,
            MmapError::WithErrno(_) => RubyError::Io,
        }
    }

    /// The exception class of each variant.
    pub open spec fn ruby_err_spec(&self) -> RubyError {
        match self {
            MmapError::ConcurrentAccess => RubyError::Arg,
            MmapError::Legacy { ruby_err, .. } => *ruby_err,
            MmapError::Encoding(_) => RubyError::Encoding,
            MmapError::Io { .. } => RubyError::Io,
            MmapError::FailedCast { .. } => RubyError::Arg,
            MmapError::Frozen => RubyError::Frozen,
            MmapError::KeyLength => RubyError::Arg,
            MmapError::Overflow { .. } => RubyError::Arg,
            MmapError::OutOfBounds { .. } => RubyError::Index,
            MmapError::OutOfMemory(_) => RubyError::NoMem,
            MmapError::Other(_) => RubyError::Arg,
            MmapError::PromParsing(_) => RubyError::PromParsing,
            MmapError::UnmappedFile => RubyError::Io,
            MmapError::WithErrno(_) => RubyError::Io,
        }
    }
}

} // verus!
