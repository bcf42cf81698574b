//! Changes to the files of a directory, and what the directory holds after them.

use crate::research_cache::{Metadata, SourceMetadata};
use vstd::prelude::*;
use vstd::utf8::encode_utf8;

verus! {

/// A change that is made to one or two files of a directory.
#[derive(Debug, PartialEq)]
pub enum FileStep {
    /// Removes the file, if it is there.
    Remove(String),
    /// Renames a file, over the one of the new name.
    Rename { from: String, to: String },
    /// Writes metadata to a file.
    WriteMetadata { to: String, metadata: SourceMetadata },
    /// Writes text to a file.
    WriteText { to: String, text: String },
}

/// The mathematical value of a `FileStep`.
pub enum Step {
    Remove(Seq<char>),
    Rename(Seq<char>, Seq<char>),
    WriteMetadata(Seq<char>, Metadata),
    WriteText(Seq<char>, Seq<char>),
}

impl View for FileStep {
    type V = Step;

    open spec fn view(&self) -> Step {
        match self {
            FileStep::Remove(name) => Step::Remove(name@),
            FileStep::Rename { from, to } => Step::Rename(from@, to@),
            FileStep::WriteMetadata { to, metadata } => Step::WriteMetadata(to@, metadata@),
            FileStep::WriteText { to, text } => Step::WriteText(to@, text@),
        }
    }
}

/// The values of a list of steps.
pub open spec fn steps_of(steps: Seq<FileStep>) -> Seq<Step> {
    steps.map_values(|step: FileStep| step@)
}

/// How metadata is kept in a file: the bytes that are written for it, and what reading bytes
/// gives, where the error is the reader's message.
pub struct MetadataFormat {
    pub encode: spec_fn(Metadata) -> Seq<u8>,
    pub decode: spec_fn(Seq<u8>) -> Result<Metadata, Seq<char>>,
}

impl MetadataFormat {
    /// What is written is read back.
    pub open spec fn faithful(self) -> bool {
        forall|metadata: Metadata|
            (self.decode)(#[trigger] (self.encode)(metadata)) == Ok::<Metadata, Seq<char>>(
                metadata,
            )
    }
}

/// What a directory holds after a step. A file that is not there is not renamed.
pub open spec fn after_step(
    directory: Map<Seq<char>, Seq<u8>>,
    step: Step,
    format: MetadataFormat,
) -> Map<Seq<char>, Seq<u8>> {
    match step {
        Step::Remove(name) => directory.remove(name),
        Step::Rename(from, to) => if directory.dom().contains(from) {
            directory.remove(from).insert(to, directory[from])
        } else {
            directory
        },
        Step::WriteMetadata(to, metadata) => directory.insert(to, (format.encode)(metadata)),
        Step::WriteText(to, text) => directory.insert(to, encode_utf8(text)),
    }
}

/// What a directory holds after several steps.
pub open spec fn after_steps(
    directory: Map<Seq<char>, Seq<u8>>,
    steps: Seq<Step>,
    format: MetadataFormat,
) -> Map<Seq<char>, Seq<u8>>
    decreases steps.len(),
{
    if steps.len() == 0 {
        directory
    } else {
        after_step(after_steps(directory, steps.drop_last(), format), steps.last(), format)
    }
}

/// Whether a step changes the file of this name.
pub open spec fn touches(step: Step, name: Seq<char>) -> bool {
    match step {
        Step::Remove(removed) => removed == name,
        Step::Rename(from, to) => from == name || to == name,
        Step::WriteMetadata(to, _) => to == name,
        Step::WriteText(to, _) => to == name,
    }
}

/// Steps leave the files alone that none of them touches.
pub proof fn lemma_untouched_file(
    directory: Map<Seq<char>, Seq<u8>>,
    steps: Seq<Step>,
    format: MetadataFormat,
    name: Seq<char>,
)
    requires
        forall|i: int| 0 <= i < steps.len() ==> !touches(#[trigger] steps[i], name),
    ensures
        ({
            let after = after_steps(directory, steps, format);
            &&& after.dom().contains(name) == directory.dom().contains(name)
            &&& directory.dom().contains(name) ==> after[name] == directory[name]
        }),
    decreases steps.len(),
{
    if steps.len() > 0 {
        assert forall|i: int| 0 <= i < steps.drop_last().len() implies !touches(
            #[trigger] steps.drop_last()[i],
            name,
        ) by {
            assert(steps.drop_last()[i] == steps[i]);
        }
        lemma_untouched_file(directory, steps.drop_last(), format, name);
        assert(!touches(steps[steps.len() - 1], name));
    }
}

} // verus!
