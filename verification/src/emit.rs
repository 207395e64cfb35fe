//! The feature emitter's decision: under which file stem a feature is
//! written, if at all.  A feature without the configured identifier field
//! is silently dropped; a textual identifier names the file as it stands;
//! an integer identifier is formatted in decimal; any other value kind
//! falls back to a synthetic name made from the running feature counter.

use vstd::prelude::*;
use crate::feature::{PropV, PropertyValue, Feature, props_lookup, props_lookup_exec};
use crate::numbers::{dec_int, dec_nat, i64_to_chars, u64_to_chars};
use crate::text::{append_chars, chars_of};
use crate::extractor::clone_chars;

verus! {

/// The file stem a feature is written under, or nothing where its property
/// mapping lacks the identifier field.
pub open spec fn spec_output_stem(
    props: Seq<(Seq<char>, PropV)>,
    id: Seq<char>,
    counter: u64,
) -> Option<Seq<char>> {
    match props_lookup(props, id) {
        None => None,
        Some(v) => Some(
            match v {
                PropV::Text(s) => s,
                PropV::Int(n) => dec_int(n as int),
                _ => "object_"@ + dec_nat(counter as int),
            },
        ),
    }
}

/// Decide the output name of a feature.  Law: the result is absent exactly
/// when the identifier field is absent from the property mapping — such a
/// feature yields no output file, and the run goes on.
pub fn output_stem(f: &Feature, id_field: &Vec<char>, counter: u64) -> (r: Option<Vec<char>>)
    ensures
        match r {
            Some(s) => spec_output_stem(f@.props, id_field@, counter) == Some(s@),
            None => spec_output_stem(f@.props, id_field@, counter) is None,
        },
        r is None <==> props_lookup(f@.props, id_field@) is None,
{
    match props_lookup_exec(&f.properties, id_field) {
        None => None,
        Some(v) => match v {
            PropertyValue::Text(s) => Some(clone_chars(s)),
            PropertyValue::Int(n) => Some(i64_to_chars(*n)),
            _ => {
                let mut out = chars_of("object_");
                let digits = u64_to_chars(counter);
                append_chars(&mut out, &digits);
                Some(out)
            },
        },
    }
}

} // verus!
