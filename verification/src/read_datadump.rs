//! A dry run over a data dump: its members are assembled and counted.

use crate::config::Config;
use crate::error::{ErrorKind, Failure};
use crate::parse_datadump::{assemble, assembly, rules_of};
use crate::pattern::pattern_compiles;
use crate::rdf::{parse_turtle, parsed_turtle};
use vstd::prelude::*;

verus! {

/// Why a dry run fails, if it does: the source is read first, then the
/// configuration is looked at, then the members are assembled.
pub open spec fn dry_failure_of(data_dump: Seq<char>, data_injection_config: &Config) -> Option<
    ErrorKind,
> {
    match parsed_turtle(data_dump) {
        None => Some(ErrorKind::ParseError),
        Some(triples) => if !pattern_compiles(data_injection_config.member_url_regex@) {
            Some(ErrorKind::ConfigInvalid)
        } else if assembly(rules_of(data_injection_config), triples) is None {
            Some(ErrorKind::SchemaContractViolation)
        } else {
            None
        },
    }
}

/// Reads a data dump held in memory and assembles its members, without
/// filing them: the number of complete members is returned.
pub fn read_datadump(data_dump: &str, data_injection_config: &Config) -> (r: Result<usize, Failure>)
    ensures
        match r {
            Ok(n_members) => {
                &&& dry_failure_of(data_dump@, data_injection_config) is None
                &&& n_members == assembly(
                    rules_of(data_injection_config),
                    parsed_turtle(data_dump@).unwrap(),
                ).unwrap().members.len()
            },
            Err(failure) => dry_failure_of(data_dump@, data_injection_config) == Some(failure.kind),
        },
{
    let triples = match parse_turtle(data_dump) {
        Ok(triples) => triples,
        Err(failure) => {
            return Err(failure);
        },
    };
    match assemble(data_injection_config, &triples) {
        Ok(members) => {
            assert(crate::member::member_views(members@).len() == members.len());
            Ok(members.len())
        },
        Err(e) => Err(Failure::of(e)),
    }
}

} // verus!
