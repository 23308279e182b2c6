//! Flag declarations and their runtime bindings.

use vstd::prelude::*;

verus! {

/// A declared flag: the single-character short form (`-x`) and the long
/// form (`--name`).  Within one command's declaration list, short and
/// long names are meant to be unique.
#[derive(Debug)]
pub struct Parameter {
    pub short_name: char,
    pub long_name: String,
}

impl Parameter {
    pub fn new(short_name: char, long_name: &str) -> (p: Parameter)
        ensures
            p.short_name == short_name,
            p.long_name@ == long_name@,
    {
        Parameter { short_name, long_name: long_name.to_owned() }
    }
}

/// The mathematical content of a [`ParameterValue`]: the matched
/// parameter and the value tokens collected after its flag, in input
/// order.
pub struct ParameterBinding {
    pub parameter: Parameter,
    pub values: Seq<Seq<char>>,
}

/// A runtime binding of one matched [`Parameter`] to the bare value
/// tokens that followed its flag, produced per parse call.  The
/// referenced declaration outlives every binding derived from it.
#[derive(Debug)]
pub struct ParameterValue<'a> {
    pub parameter_type: &'a Parameter,
    pub values: Vec<String>,
}

impl<'a> View for ParameterValue<'a> {
    type V = ParameterBinding;

    open spec fn view(&self) -> ParameterBinding {
        ParameterBinding { parameter: *self.parameter_type, values: self.values.deep_view() }
    }
}

impl<'a> DeepView for ParameterValue<'a> {
    type V = ParameterBinding;

    open spec fn deep_view(&self) -> ParameterBinding {
        self.view()
    }
}

impl<'a> ParameterValue<'a> {
    pub fn new(parameter_type: &'a Parameter) -> (pv: ParameterValue<'a>)
        ensures
            pv.parameter_type == parameter_type,
            pv@.parameter == *parameter_type,
            pv@.values == Seq::<Seq<char>>::empty(),
    {
        let pv = ParameterValue { parameter_type, values: Vec::new() };
        proof {
            assert(pv@.values =~= Seq::<Seq<char>>::empty());
        }
        pv
    }
}

} // verus!
