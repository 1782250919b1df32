//! Free-form parameters attached to catalog entries and placed modules:
//! plain values only, with fractional quantities carried as fixed-point
//! thousandths.

use vstd::prelude::*;

verus! {

/// One parameter value. Fractional quantities are stored in thousandths
/// (`Milli(1500)` stands for one and a half).
#[derive(Debug, Clone)]
pub enum ParamValue {
    Null,
    Flag(bool),
    Int(i64),
    Milli(i64),
    Text(String),
}

/// A parameter table: named values in declaration order.
pub type Params = Vec<(String, ParamValue)>;

impl ParamValue {
    /// An exact copy, field by field.
    pub fn duplicate(&self) -> (r: ParamValue)
        ensures
            r == *self,
    {
        match self {
            ParamValue::Null => ParamValue::Null,
            ParamValue::Flag(b) => ParamValue::Flag(*b),
            ParamValue::Int(n) => ParamValue::Int(*n),
            ParamValue::Milli(n) => ParamValue::Milli(*n),
            ParamValue::Text(s) => ParamValue::Text(s.clone()),
        }
    }
}

/// An exact copy of a parameter table.
pub fn duplicate_params(p: &Params) -> (r: Params)
    ensures
        r@ == p@,
{
    let mut out: Params = Vec::new();
    let mut i: usize = 0;
    while i < p.len()
        invariant
            i <= p.len(),
            out@ =~= p@.take(i as int),
        decreases p.len() - i,
    {
        let (name, value) = &p[i];
        out.push((name.clone(), value.duplicate()));
        proof {
            assert(p@.take(i + 1) =~= p@.take(i as int).push(p@[i as int]));
        }
        i = i + 1;
    }
    proof {
        assert(p@.take(p@.len() as int) =~= p@);
    }
    out
}

/// An exact copy of an optional parameter table.
pub fn duplicate_opt_params(p: &Option<Params>) -> (r: Option<Params>)
    ensures
        match p {
            Some(v) => r matches Some(w) && w@ == v@,
            None => r is None,
        },
{
    match p {
        Some(v) => Some(duplicate_params(v)),
        None => None,
    }
}

} // verus!
