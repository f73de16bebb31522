//! What `compile` tells of a program: its features, its capabilities and its optimization.

use vstd::prelude::*;
use vstd::string::StringExecFns;

use crate::bytecode::chunk::{clone_strings, string_views};
use crate::bytecode::program::Program;
use crate::bytecode::serialization::{default_metadata, BytecodeContainerMetadata, MetadataView};
use crate::compiler::analysis::CompileReport;
use crate::text::{decimal, push_decimal};

verus! {

/// The first `n` words of a list, separated by commas.
pub open spec fn listed(words: Seq<Seq<char>>, n: nat) -> Seq<char>
    decreases n,
{
    if n == 0 {
        Seq::empty()
    } else if n == 1 {
        words[0]
    } else {
        listed(words, (n - 1) as nat) + ","@ + words[n - 1]
    }
}

/// Appends the words of a list, separated by commas.
fn push_listed(text: &mut String, words: &Vec<String>)
    ensures
        final(text)@ == old(text)@ + listed(string_views(words@), words@.len()),
{
    let ghost views = string_views(words@);
    let mut i: usize = 0;
    assert(text@ =~= old(text)@ + listed(views, 0));
    while i < words.len()
        invariant
            i <= words@.len(),
            views == string_views(words@),
            text@ == old(text)@ + listed(views, i as nat),
        decreases words.len() - i,
    {
        assert(views[i as int] == words@[i as int]@);
        if i > 0 {
            text.append(",");
        }
        text.append(words[i].as_str());
        i = i + 1;
        assert(text@ =~= old(text)@ + listed(views, i as nat));
    }
}

/// What is told of a program with these features, capabilities and optimized chunks.
pub open spec fn explanation(
    features: Seq<Seq<char>>,
    capabilities: Seq<Seq<char>>,
    chunks: nat,
) -> Seq<char> {
    "features: "@ + listed(features, features.len()) + "\ncapabilities: "@ + listed(
        capabilities,
        capabilities.len(),
    ) + "\noptimizer: chunks="@ + decimal(chunks) + "\n"@
}

/// Tells of the features, the capabilities and the optimization of a program.
pub fn explain(report: &CompileReport) -> (text: String)
    ensures
        text@ == explanation(
            string_views(report.analysis.required_features@),
            string_views(report.analysis.required_capabilities@),
            report.optimization.chunks@.len(),
        ),
{
    let mut text = String::from_str("features: ");
    push_listed(&mut text, &report.analysis.required_features);
    text.append("\ncapabilities: ");
    push_listed(&mut text, &report.analysis.required_capabilities);
    text.append("\noptimizer: chunks=");
    push_decimal(&mut text, report.optimization.chunks.len() as u64);
    text.append("\n");
    assert(string_views(report.analysis.required_features@).len()
        == report.analysis.required_features@.len());
    assert(string_views(report.analysis.required_capabilities@).len()
        == report.analysis.required_capabilities@.len());
    text
}

/// The metadata of a container for a program that requires some capabilities.
pub fn explained_metadata(program: &Program, report: &CompileReport) -> (metadata:
    BytecodeContainerMetadata)
    ensures
        metadata@ == (MetadataView {
            required_capabilities: string_views(report.analysis.required_capabilities@),
            ..default_metadata(program@)
        }),
{
    let mut metadata = BytecodeContainerMetadata::for_program(program);
    metadata.required_capabilities = clone_strings(&report.analysis.required_capabilities);
    metadata
}

} // verus!
