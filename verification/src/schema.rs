//! The shape of the table: its columns, their types and the primary key.
use crate::record::FIELD_COUNT;
use vstd::prelude::*;

verus! {

/// The type of a column.
#[derive(Debug, Clone, Copy, PartialEq, Eq, Structural)]
pub enum ColumnKind {
    /// A 32-bit integer.
    Int,
    /// A 32-bit floating-point number.
    Real,
}

/// The name of column `i`, counted from 0, for `i` below the number of
/// columns.
pub open spec fn column_name_of(i: int) -> Seq<char> {
    if i == 0 {
        "day"@
    } else if i == 1 {
        "hour"@
    } else if i == 2 {
        "minute"@
    } else if i == 3 {
        "imf_sc_id"@
    } else if i == 4 {
        "plasma_sc_id"@
    } else if i == 5 {
        "imf_sc_point"@
    } else if i == 6 {
        "plasma_sc_point"@
    } else if i == 7 {
        "interp_percent"@
    } else if i == 8 {
        "timeshift"@
    } else if i == 9 {
        "timeshift_rms"@
    } else if i == 10 {
        "phase_rms"@
    } else if i == 11 {
        "obs_time"@
    } else if i == 12 {
        "b_avg"@
    } else if i == 13 {
        "bx"@
    } else if i == 14 {
        "gse_by"@
    } else if i == 15 {
        "gse_bz"@
    } else if i == 16 {
        "gsm_by"@
    } else if i == 17 {
        "gsm_bz"@
    } else if i == 18 {
        "scalar_rms"@
    } else if i == 19 {
        "vector_rms"@
    } else if i == 20 {
        "flow_speed"@
    } else if i == 21 {
        "gse_vx"@
    } else if i == 22 {
        "gse_vy"@
    } else if i == 23 {
        "gse_vz"@
    } else if i == 24 {
        "proton_density"@
    } else if i == 25 {
        "temperature"@
    } else if i == 26 {
        "flow_pressure"@
    } else if i == 27 {
        "e"@
    } else if i == 28 {
        "plasma_beta"@
    } else if i == 29 {
        "alfven_mach_num"@
    } else if i == 30 {
        "px_sc"@
    } else if i == 31 {
        "py_sc"@
    } else if i == 32 {
        "pz_sc"@
    } else if i == 33 {
        "px_bsn"@
    } else if i == 34 {
        "py_bsn"@
    } else if i == 35 {
        "pz_bsn"@
    } else if i == 36 {
        "ae"@
    } else if i == 37 {
        "al"@
    } else if i == 38 {
        "au"@
    } else if i == 39 {
        "symd"@
    } else if i == 40 {
        "symh"@
    } else if i == 41 {
        "aysd"@
    } else if i == 42 {
        "asyh"@
    } else {
        "nanp_or_pc"@
    }
}

/// The type of column `i`, counted from 0.
pub open spec fn column_kind_of(i: int) -> ColumnKind {
    if i == 10 || 12 <= i <= 35 || i == 43 {
        ColumnKind::Real
    } else {
        ColumnKind::Int
    }
}

/// How a column type is written in a table's definition.
pub open spec fn kind_text(kind: ColumnKind) -> Seq<char> {
    match kind {
        ColumnKind::Int => "INT"@,
        ColumnKind::Real => "REAL"@,
    }
}

/// The name of column `i`, counted from 0.
pub fn column_name(i: usize) -> (r: &'static str)
    requires
        i < FIELD_COUNT,
    ensures
        r@ == column_name_of(i as int),
{
    match i {
        0 => "day",
        1 => "hour",
        2 => "minute",
        3 => "imf_sc_id",
        4 => "plasma_sc_id",
        5 => "imf_sc_point",
        6 => "plasma_sc_point",
        7 => "interp_percent",
        8 => "timeshift",
        9 => "timeshift_rms",
        10 => "phase_rms",
        11 => "obs_time",
        12 => "b_avg",
        13 => "bx",
        14 => "gse_by",
        15 => "gse_bz",
        16 => "gsm_by",
        17 => "gsm_bz",
        18 => "scalar_rms",
        19 => "vector_rms",
        20 => "flow_speed",
        21 => "gse_vx",
        22 => "gse_vy",
        23 => "gse_vz",
        24 => "proton_density",
        25 => "temperature",
        26 => "flow_pressure",
        27 => "e",
        28 => "plasma_beta",
        29 => "alfven_mach_num",
        30 => "px_sc",
        31 => "py_sc",
        32 => "pz_sc",
        33 => "px_bsn",
        34 => "py_bsn",
        35 => "pz_bsn",
        36 => "ae",
        37 => "al",
        38 => "au",
        39 => "symd",
        40 => "symh",
        41 => "aysd",
        42 => "asyh",
        _ => "nanp_or_pc",
    }
}

/// The type of column `i`, counted from 0.
pub fn column_kind(i: usize) -> (r: ColumnKind)
    requires
        i < FIELD_COUNT,
    ensures
        r == column_kind_of(i as int),
{
    if i == 10 || (12 <= i && i <= 35) || i == 43 {
        ColumnKind::Real
    } else {
        ColumnKind::Int
    }
}

impl ColumnKind {
    /// How the type is written in a table's definition.
    pub fn sql_name(&self) -> (r: &'static str)
        ensures
            r@ == kind_text(*self),
    {
        match self {
            ColumnKind::Int => "INT",
            ColumnKind::Real => "REAL",
        }
    }
}

} // verus!
