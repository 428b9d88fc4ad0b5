//! Text of net kinds, data types, type columns and ranges, as the reports
//! show them.
use vstd::prelude::*;
#[allow(unused_imports)]
use vstd::string::*;
use crate::design::{DataType, NetKind, Range};
use crate::text::owned;

verus! {

pub open spec fn net_kind_text(k: NetKind) -> Seq<char> {
    match k {
        NetKind::Wire => "wire"@,
        NetKind::Logic => "logic"@,
        NetKind::Reg => "reg"@,
        NetKind::Var => "var"@,
        NetKind::Unknown => ""@,
    }
}

pub open spec fn data_type_text(t: DataType) -> Seq<char> {
    match t {
        DataType::Bit => "bit"@,
        DataType::Logic => "logic"@,
        DataType::Reg => "reg"@,
        DataType::Byte => "byte"@,
        DataType::ShortInt => "shortint"@,
        DataType::Int => "int"@,
        DataType::LongInt => "longint"@,
        DataType::Integer => "integer"@,
        DataType::Time => "time"@,
        DataType::Real => "real"@,
        DataType::ShortReal => "shortreal"@,
        DataType::Double => "double"@,
        DataType::Signed => "signed"@,
        DataType::Unsigned => "unsigned"@,
        DataType::Custom(name) => name@,
    }
}

impl NetKind {
    /// The keyword of the net kind (empty for `Unknown`).
    pub fn keyword(&self) -> (r: String)
        ensures
            r@ == net_kind_text(*self),
    {
        match self {
            NetKind::Wire => owned("wire"),
            NetKind::Logic => owned("logic"),
            NetKind::Reg => owned("reg"),
            NetKind::Var => owned("var"),
            NetKind::Unknown => owned(""),
        }
    }
}

impl DataType {
    /// The keyword of the data type, or the type's name for a custom type.
    pub fn keyword(&self) -> (r: String)
        ensures
            r@ == data_type_text(*self),
    {
        match self {
            DataType::Bit => owned("bit"),
            DataType::Logic => owned("logic"),
            DataType::Reg => owned("reg"),
            DataType::Byte => owned("byte"),
            DataType::ShortInt => owned("shortint"),
            DataType::Int => owned("int"),
            DataType::LongInt => owned("longint"),
            DataType::Integer => owned("integer"),
            DataType::Time => owned("time"),
            DataType::Real => owned("real"),
            DataType::ShortReal => owned("shortreal"),
            DataType::Double => owned("double"),
            DataType::Signed => owned("signed"),
            DataType::Unsigned => owned("unsigned"),
            DataType::Custom(name) => name.clone(),
        }
    }
}

/// A variable-like net kind: `logic`, `var` or unknown.
pub open spec fn is_variable_kind(k: NetKind) -> bool {
    k is Logic || k is Var || k is Unknown
}

/// The type column of a port or signal. A Verilog `reg` shows as `reg`,
/// `logic` as `logic`, a `logic` wire as `wire`, `bit` as `bit`; any other
/// combination shows as `net_kind data_type`, or the data type alone when
/// the net kind is empty or has the same text.
pub open spec fn type_text(t: DataType, k: NetKind) -> Seq<char> {
    if t is Reg && is_variable_kind(k) {
        "reg"@
    } else if t is Logic && is_variable_kind(k) {
        "logic"@
    } else if t is Logic && k is Wire {
        "wire"@
    } else if t is Bit && is_variable_kind(k) {
        "bit"@
    } else {
        let dt = data_type_text(t);
        let nk = net_kind_text(k);
        if nk.len() == 0 || dt == nk {
            dt
        } else {
            nk + " "@ + dt
        }
    }
}

/// Return canonical type string for a port/signal.
pub fn format_type(dtype: &DataType, net_kind: &NetKind) -> (r: String)
    ensures
        r@ == type_text(*dtype, *net_kind),
{
    let variable = match net_kind {
        NetKind::Logic | NetKind::Var | NetKind::Unknown => true,
        _ => false,
    };
    match dtype {
        DataType::Reg if variable => owned("reg"),
        DataType::Logic if variable => owned("logic"),
        DataType::Logic if matches!(net_kind, NetKind::Wire) => owned("wire"),
        DataType::Bit if variable => owned("bit"),
        _ => {
            let dt = dtype.keyword();
            let nk = net_kind.keyword();
            if nk.as_str().unicode_len() == 0 || dt == nk {
                dt
            } else {
                let mut out = nk;
                out.append(" ");
                out.append(dt.as_str());
                out
            }
        },
    }
}

/// `[msb:lsb]` text of a range, or nothing when there is none.
pub open spec fn range_text(r: Option<Range>) -> Seq<char> {
    match r {
        Some(r) => "["@ + r.msb@ + ":"@ + r.lsb@ + "]"@,
        None => Seq::empty(),
    }
}

pub fn format_range(range: &Option<Range>) -> (r: String)
    ensures
        r@ == range_text(*range),
{
    match range {
        Some(rg) => {
            let mut out = owned("[");
            out.append(rg.msb.as_str());
            out.append(":");
            out.append(rg.lsb.as_str());
            out.append("]");
            assert(out@ =~= range_text(*range));
            out
        },
        None => String::new(),
    }
}

} // verus!
