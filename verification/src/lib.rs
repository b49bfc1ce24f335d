//! Compiles, for every learning unit of a prerequisite graph (a "rooted
//! supercluster"), its unlocking condition: the hard prerequisites that must
//! all be completed and the alternative motivators of which one suffices.
//! The graph, the condition map, and declared artifact files are then bundled
//! into an uncompressed zip archive, handed back base64-encoded for the
//! caller to persist.

pub mod graph;
pub mod closure;
pub mod conditions;
pub mod render;
pub mod archive;

use vstd::prelude::*;
use crate::archive::{
    archive_entries, archive_entry_meta, artifact_path_ok, base64_decoded, base64_encode,
    base64_of, build_archive, entry_name_fits, spec_archive_entries, strings_view,
};
use crate::conditions::{compile_conditions, is_condition_map_for, UnlockingCondition};
use crate::graph::{NodeID, RootedSupercluster};
use crate::render::{conditions_doc, graph_doc};

verus! {

/// One artifact to copy into the archive: the path of the source file and
/// the archive directory that receives it (under the file's own name).
#[derive(Clone, PartialEq, Eq, Debug)]
pub struct ArtifactMapping {
    pub local_file: String,
    pub root_relative_target_dir: String,
}

/// The input of a processing run: the prerequisite graph and the artifacts
/// to bundle beside it.
pub struct ArchivePayload {
    pub rooted_supercluster: RootedSupercluster,
    pub artifact_mapping: Vec<ArtifactMapping>,
}

/// The result of a successful run: the artifact mapping, echoed back.
#[derive(Clone, PartialEq, Eq, Debug)]
pub struct WorkflowStepProcessingResult {
    pub hash_set: Vec<ArtifactMapping>,
}

/// The recognized configuration options: none are currently accepted.
pub struct ParamsSchema {
    pub schema: Vec<(String, String)>,
}

/// Why a processing run was aborted. Every sub-step failure is propagated,
/// rather than only the container-finalize step's. Malformed input — an
/// inconsistent graph, or an artifact path without a file-name component —
/// is fatal and excluded by precondition rather than reported here: the
/// caller checks and aborts before the run.
#[derive(Clone, Copy, PartialEq, Eq, Structural, Debug)]
pub enum ProcessError {
    /// The entry name of the artifact at `index` does not fit the container
    /// format's 16-bit name-length field.
    EntryNameTooLong { index: usize },
    /// The artifact contents at `index` are not well-formed base64 text.
    InvalidArtifactEncoding { index: usize },
    /// The decoded artifact at `index` exceeds the container format's 4 GiB
    /// plain-entry limit.
    ArtifactTooLarge { index: usize },
    /// The archive container reported a failure, or a rendered document
    /// exceeded the container format's entry size limit.
    Container,
}

/// The empty recognized-options schema: no configuration is accepted.
pub fn get_params_schema() -> (r: ParamsSchema)
    ensures
        r.schema@.len() == 0,
{
    ParamsSchema { schema: Vec::new() }
}

/// Run the full pipeline on a well-formed payload: compile the condition
/// map, assemble the archive (graph document, artifacts, condition map), and
/// hand it back base64-encoded together with the echoed artifact mapping.
///
/// `artifact_contents` holds the base64-encoded bytes of each artifact file,
/// one text per mapping entry, in order, as read by the caller.
///
/// Malformed input is fatal, not a soft error: the contract assumes a
/// consistent graph and a file-name component on every artifact path, and
/// the caller aborts — as on an inconsistent graph — when
/// [`archive::artifact_paths_have_file_names`] rejects the mapping.
pub fn process_paths(payload: ArchivePayload, artifact_contents: &Vec<String>) -> (r: Result<
    (String, WorkflowStepProcessingResult),
    ProcessError,
>)
    requires
        payload.rooted_supercluster.wf(),
        artifact_contents@.len() == payload.artifact_mapping@.len(),
        forall|k: int|
            0 <= k < payload.artifact_mapping@.len() ==> artifact_path_ok(
                #[trigger] payload.artifact_mapping@[k],
            ),
    ensures
        r matches Ok(out) ==> {
            &&& out.1.hash_set == payload.artifact_mapping
            &&& forall|k: int|
                0 <= k < payload.artifact_mapping@.len() ==> entry_name_fits(
                    #[trigger] payload.artifact_mapping@[k],
                ) && base64_decoded(strings_view(artifact_contents@)[k]) is Some
            &&& exists|zb: Seq<u8>, m: Seq<(NodeID, Option<UnlockingCondition>)>|
                #![auto]
                {
                    &&& is_condition_map_for(payload.rooted_supercluster, m)
                    &&& out.0@ == base64_of(zb)
                    &&& archive_entries(zb) == spec_archive_entries(
                        payload.rooted_supercluster,
                        m,
                        payload.artifact_mapping@,
                        strings_view(artifact_contents@),
                    )
                    &&& forall|n: Seq<char>|
                        #![auto]
                        archive_entry_meta(zb).contains_key(n) == spec_archive_entries(
                            payload.rooted_supercluster,
                            m,
                            payload.artifact_mapping@,
                            strings_view(artifact_contents@),
                        ).contains_key(n)
                    &&& forall|n: Seq<char>|
                        #![auto]
                        archive_entry_meta(zb).contains_key(n) ==> archive_entry_meta(zb)[n] == (
                        true,
                        Some(0o755u32),
                        )
                }
        },
        r matches Err(e) ==> {
            &&& e matches ProcessError::EntryNameTooLong { index } ==> index
                < payload.artifact_mapping@.len() && !entry_name_fits(
                payload.artifact_mapping@[index as int],
            )
            &&& e matches ProcessError::InvalidArtifactEncoding { index } ==> index
                < payload.artifact_mapping@.len() && base64_decoded(
                strings_view(artifact_contents@)[index as int],
            ) is None
            &&& e matches ProcessError::ArtifactTooLarge { index } ==> index
                < payload.artifact_mapping@.len() && base64_decoded(
                strings_view(artifact_contents@)[index as int],
            ) is Some && base64_decoded(
                strings_view(artifact_contents@)[index as int],
            ).unwrap().len() > 0xFFFF_FFFF
        },
        ({
            &&& forall|k: int|
                0 <= k < payload.artifact_mapping@.len() ==> entry_name_fits(
                    #[trigger] payload.artifact_mapping@[k],
                ) && base64_decoded(strings_view(artifact_contents@)[k]) is Some && base64_decoded(
                    strings_view(artifact_contents@)[k],
                ).unwrap().len() <= 0xFFFF_FFFF
            &&& graph_doc(payload.rooted_supercluster).len() <= 0xFFFF_FFFF
            &&& forall|m: Seq<(NodeID, Option<UnlockingCondition>)>|
                #![auto]
                is_condition_map_for(payload.rooted_supercluster, m) ==> conditions_doc(m).len()
                    <= 0xFFFF_FFFF
        }) ==> r is Ok,
{
    let conds = compile_conditions(&payload.rooted_supercluster);
    let bytes = match build_archive(
        &payload.rooted_supercluster,
        &conds,
        &payload.artifact_mapping,
        artifact_contents,
    ) {
        Ok(b) => b,
        Err(e) => {
            return Err(e);
        },
    };
    let text = base64_encode(bytes.as_slice());
    proof {
        assert(is_condition_map_for(payload.rooted_supercluster, conds@) && text@ == base64_of(
            bytes@,
        ) && archive_entries(bytes@) == spec_archive_entries(
            payload.rooted_supercluster,
            conds@,
            payload.artifact_mapping@,
            strings_view(artifact_contents@),
        ));
    }
    Ok((text, WorkflowStepProcessingResult { hash_set: payload.artifact_mapping }))
}

} // verus!
