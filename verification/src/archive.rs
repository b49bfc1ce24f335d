//! Archive assembly: the rendered graph document, each declared artifact
//! file, and the rendered condition map are bundled into an in-memory zip
//! container with uncompressed ("stored") entries and unix permission bits
//! `0o755`.
//!
//! The zip container format and the base64 transport encoding come from
//! outside crates; every call into them stands behind a trusted item whose
//! contract models the writer as a map from entry names to entry bytes,
//! with a parallel map recording each entry's compression and permissions.
//!
//! Unlike a best-effort assembler that only observes the final
//! container-finalize step, every sub-step failure here is propagated.

use vstd::prelude::*;
use vstd::string::{StrSliceExecFns, StringExecFns, StringSliceAdditionalSpecFns};
use vstd::utf8::encode_utf8;
use crate::graph::{NodeID, RootedSupercluster};
use crate::conditions::UnlockingCondition;
use crate::render::{conditions_doc, graph_doc, render_conditions_doc, render_graph_doc};
use crate::{ArtifactMapping, ProcessError};

verus! {

/// An in-memory zip archive writer of the outside zip crate, held opaquely
/// behind the trusted wrappers below.
#[verifier::external_body]
pub struct ArchiveWriter {
    inner: zip::ZipWriter<std::io::Cursor<Vec<u8>>>,
}

/// Whether the writer can still be operated on. A failed write closes the
/// writer's inner stream, and every later operation on it errors; no
/// operation below is promised anything of a writer that is not live.
pub uninterp spec fn zip_live(w: ArchiveWriter) -> bool;

/// What the zip writer holds so far: a map from entry names to the bytes
/// written under them.
pub uninterp spec fn zip_entries(w: ArchiveWriter) -> Map<Seq<char>, Seq<u8>>;

/// The name of the entry most recently begun, which subsequent writes extend.
pub uninterp spec fn zip_open_entry(w: ArchiveWriter) -> Seq<char>;

/// The metadata the writer records for each entry: whether it is stored
/// uncompressed, and the unix permission bits it was given.
pub uninterp spec fn zip_entry_meta(w: ArchiveWriter) -> Map<Seq<char>, (bool, Option<u32>)>;

/// The entries that a finalized zip archive holds, as read back by name.
pub uninterp spec fn archive_entries(b: Seq<u8>) -> Map<Seq<char>, Seq<u8>>;

/// The per-entry metadata of a finalized zip archive, as read back by name:
/// whether the entry is stored uncompressed, and its unix permission bits.
pub uninterp spec fn archive_entry_meta(b: Seq<u8>) -> Map<Seq<char>, (bool, Option<u32>)>;

/// Whether a set of entry options selects the uncompressed ("stored")
/// method.
pub uninterp spec fn options_stored(o: zip::write::FileOptions) -> bool;

/// The unix permission bits a set of entry options carries.
pub uninterp spec fn options_unix_mode(o: zip::write::FileOptions) -> Option<u32>;

/// The base64 encoding of a byte sequence, as produced by the standard
/// alphabet with padding.
pub uninterp spec fn base64_of(b: Seq<u8>) -> Seq<char>;

/// The bytes a base64 text decodes to under the standard alphabet: `Some`
/// exactly for well-formed base64 text.
pub uninterp spec fn base64_decoded(s: Seq<char>) -> Option<Seq<u8>>;

#[verifier::external_type_specification]
#[verifier::external_body]
pub struct ExFileOptions(zip::write::FileOptions);

#[verifier::external_type_specification]
#[verifier::external_body]
pub struct ExZipError(zip::result::ZipError);

#[verifier::external_type_specification]
#[verifier::external_body]
pub struct ExIoError(std::io::Error);

#[verifier::external_type_specification]
#[verifier::external_body]
pub struct ExDecodeError(base64::DecodeError);

/// Relies on zip::ZipWriter::new over an in-memory cursor: a freshly created
/// writer is live and holds no entries.
#[verifier::external_body]
fn zip_writer_new() -> (r: ArchiveWriter)
    ensures
        zip_live(r),
        forall|k: Seq<char>| !zip_entries(r).dom().contains(k),
        forall|k: Seq<char>| !zip_entry_meta(r).dom().contains(k),
{
    ArchiveWriter { inner: zip::ZipWriter::new(std::io::Cursor::new(Vec::new())) }
}

/// Relies on zip::write::FileOptions::default as the base entry options.
#[verifier::external_body]
fn zip_options_default() -> (o: zip::write::FileOptions) {
    zip::write::FileOptions::default()
}

/// Relies on FileOptions::compression_method, selecting the `Stored`
/// (uncompressed) method; the permission bits are left as they were.
#[verifier::external_body]
fn zip_options_stored(o: zip::write::FileOptions) -> (r: zip::write::FileOptions)
    ensures
        options_stored(r),
        options_unix_mode(r) == options_unix_mode(o),
{
    o.compression_method(zip::CompressionMethod::Stored)
}

/// Relies on FileOptions::unix_permissions, which masks the mode with
/// `0o777`; the compression method is left as it was.
#[verifier::external_body]
fn zip_options_unix_permissions(o: zip::write::FileOptions, mode: u32) -> (r:
    zip::write::FileOptions)
    ensures
        options_unix_mode(r) == Some(mode & 0o777),
        options_stored(r) == options_stored(o),
{
    o.unix_permissions(mode)
}

/// Relies on zip::ZipWriter::start_file: a new, empty entry under `name` is
/// begun with the given options, and it is the entry that subsequent writes
/// extend. On a live writer over an in-memory cursor every error path of
/// start_file is an io error of the underlying stream, so the call
/// succeeds. The name's UTF-8 length must fit the format's 16-bit
/// name-length field: a longer name would be written with a wrapped length
/// and the archive would no longer read back.
#[verifier::external_body]
fn zip_start_file(w: &mut ArchiveWriter, name: &str, o: zip::write::FileOptions) -> (r: Result<
    (),
    zip::result::ZipError,
>)
    requires
        zip_live(*old(w)),
        encode_utf8(name@).len() <= 65535,
    ensures
        r is Ok,
        zip_live(*final(w)),
        zip_entries(*final(w)) == zip_entries(*old(w)).insert(name@, Seq::empty()),
        zip_open_entry(*final(w)) == name@,
        zip_entry_meta(*final(w)) == zip_entry_meta(*old(w)).insert(
            name@,
            (options_stored(o), options_unix_mode(o)),
        ),
{
    w.inner.start_file(name, o)
}

/// Relies on the std::io::Write impl of ZipWriter (write_all): on success
/// the bytes are appended to the entry begun by the last start_file call.
/// On a live writer the write fails exactly when it would push the entry
/// past the format's 4 GiB plain-entry limit — an in-memory cursor's write
/// cannot otherwise fail — and that failure closes the writer, which then
/// is no longer live.
#[verifier::external_body]
fn zip_write_entry_bytes(w: &mut ArchiveWriter, bytes: &[u8]) -> (r: Result<(), std::io::Error>)
    requires
        zip_live(*old(w)),
        zip_entries(*old(w)).contains_key(zip_open_entry(*old(w))),
    ensures
        zip_entries(*old(w))[zip_open_entry(*old(w))].len() + bytes@.len() <= 0xFFFF_FFFF ==> r
            is Ok,
        r is Ok ==> zip_live(*final(w)),
        r is Ok ==> zip_entries(*final(w)) == zip_entries(*old(w)).insert(
            zip_open_entry(*old(w)),
            zip_entries(*old(w))[zip_open_entry(*old(w))] + bytes@,
        ),
        r is Ok ==> zip_open_entry(*final(w)) == zip_open_entry(*old(w)),
        r is Ok ==> zip_entry_meta(*final(w)) == zip_entry_meta(*old(w)),
{
    std::io::Write::write_all(&mut w.inner, bytes)
}

/// Relies on zip::ZipWriter::finish: the returned bytes are a complete
/// archive holding exactly the entries written so far, with their recorded
/// metadata. On a live writer over an in-memory cursor finalization cannot
/// fail, and every entry name fits the format's name-length field
/// (start_file requires it), so the central directory reads back exactly.
#[verifier::external_body]
fn zip_finish(w: ArchiveWriter) -> (r: Result<Vec<u8>, zip::result::ZipError>)
    requires
        zip_live(w),
    ensures
        r is Ok,
        r matches Ok(b) ==> archive_entries(b@) == zip_entries(w),
        r matches Ok(b) ==> archive_entry_meta(b@) == zip_entry_meta(w),
{
    let mut inner = w.inner;
    match inner.finish() {
        Ok(cursor) => Ok(cursor.into_inner()),
        Err(e) => Err(e),
    }
}

/// Relies on base64's standard-alphabet engine encode: the encoding is a
/// function of the input bytes alone, and decoding it restores the bytes.
#[verifier::external_body]
pub(crate) fn base64_encode(b: &[u8]) -> (r: String)
    ensures
        r@ == base64_of(b@),
        base64_decoded(r@) == Some(b@),
{
    base64::Engine::encode(&base64::engine::general_purpose::STANDARD, b)
}

/// Relies on base64's standard-alphabet engine decode: deterministic, and
/// successful exactly for well-formed base64 text.
#[verifier::external_body]
pub(crate) fn base64_decode(s: &str) -> (r: Result<Vec<u8>, base64::DecodeError>)
    ensures
        (r is Ok) == (base64_decoded(s@) is Some),
        r matches Ok(b) ==> Some(b@) == base64_decoded(s@),
{
    base64::Engine::decode(&base64::engine::general_purpose::STANDARD, s)
}

/// A UTF-8 encoding takes at most four bytes per character.
proof fn lemma_encode_utf8_len(chars: Seq<char>)
    ensures
        encode_utf8(chars).len() <= 4 * chars.len(),
    decreases chars.len(),
{
    if chars.len() > 0 {
        lemma_encode_utf8_len(chars.drop_first());
    }
}

/// The characters after the last `/` of a sequence.
pub open spec fn suffix_after_slash(s: Seq<char>) -> Seq<char>
    decreases s.len(),
{
    if s.len() == 0 {
        s
    } else if s.last() == '/' {
        Seq::empty()
    } else {
        suffix_after_slash(s.drop_last()).push(s.last())
    }
}

/// The file-name component of a path: trailing separators and trailing
/// bare `.` components are ignored, and the last remaining component is the
/// name — the unix reading of a path's final component.
pub open spec fn spec_file_name(s: Seq<char>) -> Seq<char>
    decreases s.len(),
{
    if s.len() == 0 {
        Seq::empty()
    } else if s.last() == '/' {
        spec_file_name(s.drop_last())
    } else if s.last() == '.' && (s.len() == 1 || s[s.len() - 2] == '/') {
        spec_file_name(s.drop_last())
    } else {
        suffix_after_slash(s)
    }
}

/// A usable file name: non-empty and not the parent component `..` (a bare
/// `.` never survives the component trimming above).
pub open spec fn valid_file_name(f: Seq<char>) -> bool {
    f.len() > 0 && f != seq!['.', '.']
}

/// The archive entry name of an artifact: the target directory joined with
/// the file name, with a `/` added unless the directory is empty or already
/// ends in one.
pub open spec fn spec_entry_name(dir: Seq<char>, name: Seq<char>) -> Seq<char> {
    if dir.len() == 0 {
        name
    } else if dir.last() == '/' {
        dir + name
    } else {
        dir + seq!['/'] + name
    }
}

/// Whether an artifact mapping names a usable file.
pub open spec fn artifact_path_ok(m: ArtifactMapping) -> bool {
    valid_file_name(spec_file_name(m.local_file@))
}

/// The archive entry name declared by an artifact mapping.
pub open spec fn spec_artifact_entry_name(m: ArtifactMapping) -> Seq<char> {
    spec_entry_name(m.root_relative_target_dir@, spec_file_name(m.local_file@))
}

/// Whether an artifact's entry name fits the container format's 16-bit
/// name-length field.
pub open spec fn entry_name_fits(m: ArtifactMapping) -> bool {
    encode_utf8(spec_artifact_entry_name(m)).len() <= 65535
}

/// The views of a list of strings.
pub open spec fn strings_view(v: Seq<String>) -> Seq<Seq<char>> {
    v.map_values(|s: String| s@)
}

/// The entries contributed by the first `k` artifacts, added to `base` in
/// order: each artifact's decoded bytes under its declared entry name.
pub open spec fn artifact_entries_prefix(
    base: Map<Seq<char>, Seq<u8>>,
    ms: Seq<ArtifactMapping>,
    cs: Seq<Seq<char>>,
    k: int,
) -> Map<Seq<char>, Seq<u8>>
    decreases k,
{
    if k <= 0 {
        base
    } else {
        artifact_entries_prefix(base, ms, cs, k - 1).insert(
            spec_artifact_entry_name(ms[k - 1]),
            base64_decoded(cs[k - 1]).unwrap(),
        )
    }
}

/// The complete expected contents of the archive: the graph document, the
/// artifacts in declaration order, and the condition map document.
pub open spec fn spec_archive_entries(
    g: RootedSupercluster,
    conds: Seq<(NodeID, Option<UnlockingCondition>)>,
    ms: Seq<ArtifactMapping>,
    cs: Seq<Seq<char>>,
) -> Map<Seq<char>, Seq<u8>> {
    artifact_entries_prefix(
        Map::<Seq<char>, Seq<u8>>::empty().insert("serialized_complete_graph.yaml"@, graph_doc(g)),
        ms,
        cs,
        ms.len() as int,
    ).insert("unlocking_conditions.json"@, conditions_doc(conds))
}

/// Within the artifact entries added to `base`, artifact `k`'s entry
/// survives up to prefix length `m` unless a later artifact reuses its name.
proof fn lemma_artifact_prefix_entry(
    base: Map<Seq<char>, Seq<u8>>,
    ms: Seq<ArtifactMapping>,
    cs: Seq<Seq<char>>,
    k: int,
    m: int,
)
    requires
        0 <= k < m <= ms.len(),
        forall|j: int|
            k < j < m ==> spec_artifact_entry_name(#[trigger] ms[j]) != spec_artifact_entry_name(
                ms[k],
            ),
    ensures
        artifact_entries_prefix(base, ms, cs, m).contains_key(spec_artifact_entry_name(ms[k])),
        artifact_entries_prefix(base, ms, cs, m)[spec_artifact_entry_name(ms[k])]
            == base64_decoded(cs[k]).unwrap(),
    decreases m,
{
    if m == k + 1 {
    } else {
        lemma_artifact_prefix_entry(base, ms, cs, k, m - 1);
    }
}

/// Archive round trip for one artifact: the assembled archive holds, at the
/// artifact's declared entry name, exactly the bytes its base64 contents
/// decode to — unless a later artifact claims the same entry name, or the
/// artifact itself targets the condition document's name, in which case the
/// later entry shadows it.
pub proof fn lemma_artifact_entry_round_trip(
    g: RootedSupercluster,
    conds: Seq<(NodeID, Option<UnlockingCondition>)>,
    ms: Seq<ArtifactMapping>,
    cs: Seq<Seq<char>>,
    k: int,
)
    requires
        0 <= k < ms.len(),
        forall|j: int|
            k < j < ms.len() ==> spec_artifact_entry_name(#[trigger] ms[j])
                != spec_artifact_entry_name(ms[k]),
        spec_artifact_entry_name(ms[k]) != "unlocking_conditions.json"@,
    ensures
        spec_archive_entries(g, conds, ms, cs).contains_key(spec_artifact_entry_name(ms[k])),
        spec_archive_entries(g, conds, ms, cs)[spec_artifact_entry_name(ms[k])] == base64_decoded(
            cs[k],
        ).unwrap(),
{
    let base = Map::<Seq<char>, Seq<u8>>::empty().insert(
        "serialized_complete_graph.yaml"@,
        graph_doc(g),
    );
    lemma_artifact_prefix_entry(base, ms, cs, k, ms.len() as int);
}

/// If the suffix of `s` from `i` on holds no `/`, and `i` is the start or
/// preceded by a `/`, that suffix is the part after the last `/`.
proof fn lemma_suffix_after_slash(s: Seq<char>, i: int)
    requires
        0 <= i <= s.len(),
        i == 0 || s[i - 1] == '/',
        forall|k: int| i <= k < s.len() ==> s[k] != '/',
    ensures
        suffix_after_slash(s) == s.subrange(i, s.len() as int),
    decreases s.len(),
{
    if s.len() == 0 {
        assert(s.subrange(0, 0) =~= s);
    } else if i == s.len() {
        assert(s.last() == s[i - 1]);
        assert(suffix_after_slash(s) =~= s.subrange(i, s.len() as int));
    } else {
        lemma_suffix_after_slash(s.drop_last(), i);
        assert(s.drop_last().subrange(i, s.drop_last().len() as int) =~= s.subrange(
            i,
            s.len() - 1,
        ));
        assert(suffix_after_slash(s) =~= s.subrange(i, s.len() as int));
    }
}

/// The file-name component of a path.
fn file_name_exec(path: &str) -> (r: String)
    ensures
        r@ == spec_file_name(path@),
{
    let n = path.unicode_len();
    let mut e: usize = n;
    let mut done = false;
    proof {
        assert(path@.take(n as int) =~= path@);
    }
    while !done
        invariant
            e <= n,
            n == path@.len(),
            spec_file_name(path@) == spec_file_name(path@.take(e as int)),
            done ==> e == 0 || (path@[e - 1] != '/' && !(path@[e - 1] == '.' && (e == 1 || path@[e
                - 2] == '/'))),
        decreases 2 * e + (if done {
            0int
        } else {
            1int
        }),
    {
        if e == 0 {
            done = true;
        } else {
            let c = path.get_char(e - 1);
            let strip = c == '/' || (c == '.' && (e == 1 || path.get_char(e - 2) == '/'));
            if strip {
                proof {
                    assert(path@.take(e as int).drop_last() =~= path@.take(e - 1));
                }
                e = e - 1;
            } else {
                done = true;
            }
        }
    }
    if e == 0 {
        proof {
            assert(path@.take(0) =~= Seq::<char>::empty());
        }
        return String::new();
    }
    let mut idx: usize = 0;
    let mut j: usize = 0;
    while j < e
        invariant
            j <= e,
            e <= n,
            n == path@.len(),
            idx <= j,
            idx == 0 || path@[idx - 1] == '/',
            forall|k: int| idx <= k < j ==> path@[k] != '/',
        decreases e - j,
    {
        if path.get_char(j) == '/' {
            idx = j + 1;
        }
        j = j + 1;
    }
    let name = path.substring_char(idx, e);
    proof {
        let t = path@.take(e as int);
        assert(forall|k: int| idx <= k < t.len() ==> t[k] != '/');
        lemma_suffix_after_slash(t, idx as int);
        assert(t.last() == path@[e - 1]);
        assert(spec_file_name(t) == suffix_after_slash(t));
        assert(t.subrange(idx as int, e as int) =~= path@.subrange(idx as int, e as int));
    }
    name.to_owned()
}

/// Whether a file name is usable: non-empty and not `..`.
fn check_file_name(name: &str) -> (r: bool)
    ensures
        r == valid_file_name(name@),
{
    let n = name.unicode_len();
    if n == 0 {
        return false;
    }
    if n == 2 && name.get_char(0) == '.' && name.get_char(1) == '.' {
        proof {
            assert(name@ =~= seq!['.', '.']);
        }
        return false;
    }
    proof {
        if name@ == seq!['.', '.'] {
            assert(name@.len() == 2 && name@[0] == '.' && name@[1] == '.');
        }
    }
    true
}

/// Join a target directory and a file name into an archive entry name.
fn join_entry_name(dir: &String, name: &str) -> (r: String)
    ensures
        r@ == spec_entry_name(dir@, name@),
{
    let dl = dir.as_str().unicode_len();
    if dl == 0 {
        return name.to_owned();
    }
    let mut s = dir.clone();
    if dir.as_str().get_char(dl - 1) != '/' {
        s.append("/");
        proof {
            reveal_strlit("/");
            assert(s@ =~= dir@ + seq!['/']);
        }
    }
    s.append(name);
    proof {
        assert(s@ =~= spec_entry_name(dir@, name@));
    }
    s
}

/// Whether every artifact mapping names a usable file, decided by
/// computing each mapping's file-name component. The archive assembly
/// assumes this of its input: a mapping without a file-name component is
/// malformed, and the caller aborts rather than proceeding.
pub fn artifact_paths_have_file_names(mappings: &Vec<ArtifactMapping>) -> (b: bool)
    ensures
        b == (forall|k: int| 0 <= k < mappings@.len() ==> artifact_path_ok(#[trigger] mappings@[k])),
{
    let mut k: usize = 0;
    while k < mappings.len()
        invariant
            k <= mappings@.len(),
            forall|j: int| 0 <= j < k ==> artifact_path_ok(#[trigger] mappings@[j]),
        decreases mappings@.len() - k,
    {
        let name = file_name_exec(mappings[k].local_file.as_str());
        if !check_file_name(name.as_str()) {
            return false;
        }
        assert(artifact_path_ok(mappings@[k as int]));
        k = k + 1;
    }
    true
}

/// Assemble the archive: the rendered graph document, each artifact's
/// decoded bytes under its declared entry name, and the rendered condition
/// map — every entry stored uncompressed with unix permission bits `0o755`,
/// as the metadata clauses state. Artifact contents arrive base64-encoded,
/// one text per artifact mapping, in order.
///
/// A mapping without a file-name component is malformed input, excluded by
/// contract as the graph's consistency is: the caller checks with
/// [`artifact_paths_have_file_names`] and aborts. Every sub-step failure is
/// propagated, each with its cause: an entry name or document over the
/// container format's size limits, an ill-formed base64 text, or a
/// container failure. Success is owed whenever every artifact has
/// well-formed contents within the format's limits and both documents fit
/// an entry.
pub fn build_archive(
    g: &RootedSupercluster,
    conds: &Vec<(NodeID, Option<UnlockingCondition>)>,
    mappings: &Vec<ArtifactMapping>,
    contents: &Vec<String>,
) -> (r: Result<Vec<u8>, ProcessError>)
    requires
        contents@.len() == mappings@.len(),
        forall|k: int| 0 <= k < mappings@.len() ==> artifact_path_ok(#[trigger] mappings@[k]),
    ensures
        r matches Ok(b) ==> {
            &&& forall|k: int|
                0 <= k < mappings@.len() ==> entry_name_fits(#[trigger] mappings@[k])
                    && base64_decoded(strings_view(contents@)[k]) is Some
            &&& archive_entries(b@) == spec_archive_entries(
                *g,
                conds@,
                mappings@,
                strings_view(contents@),
            )
            &&& forall|n: Seq<char>|
                #![auto]
                archive_entry_meta(b@).contains_key(n) == spec_archive_entries(
                    *g,
                    conds@,
                    mappings@,
                    strings_view(contents@),
                ).contains_key(n)
            &&& forall|n: Seq<char>|
                #![auto]
                archive_entry_meta(b@).contains_key(n) ==> archive_entry_meta(b@)[n] == (
                true,
                Some(0o755u32),
                )
        },
        r matches Err(e) ==> {
            &&& e matches ProcessError::EntryNameTooLong { index } ==> index < mappings@.len()
                && !entry_name_fits(mappings@[index as int])
            &&& e matches ProcessError::InvalidArtifactEncoding { index } ==> index
                < mappings@.len() && base64_decoded(
                strings_view(contents@)[index as int],
            ) is None
            &&& e matches ProcessError::ArtifactTooLarge { index } ==> index < mappings@.len()
                && base64_decoded(strings_view(contents@)[index as int]) is Some && base64_decoded(
                strings_view(contents@)[index as int],
            ).unwrap().len() > 0xFFFF_FFFF
            &&& (e matches ProcessError::EntryNameTooLong { .. } || e
                matches ProcessError::InvalidArtifactEncoding { .. } || e
                matches ProcessError::ArtifactTooLarge { .. } || e
                matches ProcessError::Container)
        },
        ({
            &&& forall|k: int|
                0 <= k < mappings@.len() ==> entry_name_fits(#[trigger] mappings@[k])
                    && base64_decoded(strings_view(contents@)[k]) is Some && base64_decoded(
                    strings_view(contents@)[k],
                ).unwrap().len() <= 0xFFFF_FFFF
            &&& graph_doc(*g).len() <= 0xFFFF_FFFF
            &&& conditions_doc(conds@).len() <= 0xFFFF_FFFF
        }) ==> r is Ok,
{
    let opts = zip_options_unix_permissions(zip_options_stored(zip_options_default()), 0o755);
    proof {
        assert(0o755u32 & 0o777u32 == 0o755u32) by (bit_vector);
        reveal_strlit("serialized_complete_graph.yaml");
        reveal_strlit("unlocking_conditions.json");
        lemma_encode_utf8_len("serialized_complete_graph.yaml"@);
        lemma_encode_utf8_len("unlocking_conditions.json"@);
    }
    let mut w = zip_writer_new();
    let gdoc = render_graph_doc(g);
    if gdoc.len() as u64 > 0xFFFF_FFFFu64 {
        return Err(ProcessError::Container);
    }
    match zip_start_file(&mut w, "serialized_complete_graph.yaml", opts) {
        Ok(_) => (),
        Err(_) => {
            return Err(ProcessError::Container);
        },
    }
    match zip_write_entry_bytes(&mut w, gdoc.as_slice()) {
        Ok(_) => (),
        Err(_) => {
            return Err(ProcessError::Container);
        },
    }
    let ghost base = Map::<Seq<char>, Seq<u8>>::empty().insert(
        "serialized_complete_graph.yaml"@,
        graph_doc(*g),
    );
    proof {
        assert(zip_entries(w) =~= base);
    }
    let mut k: usize = 0;
    while k < mappings.len()
        invariant
            k <= mappings@.len(),
            contents@.len() == mappings@.len(),
            options_stored(opts),
            options_unix_mode(opts) == Some(0o755u32),
            zip_live(w),
            zip_entries(w) == artifact_entries_prefix(
                base,
                mappings@,
                strings_view(contents@),
                k as int,
            ),
            forall|n: Seq<char>|
                #![auto]
                zip_entry_meta(w).contains_key(n) == zip_entries(w).contains_key(n),
            forall|n: Seq<char>|
                #![auto]
                zip_entry_meta(w).contains_key(n) ==> zip_entry_meta(w)[n] == (
                true,
                Some(0o755u32),
                ),
            forall|j: int|
                0 <= j < k ==> entry_name_fits(#[trigger] mappings@[j]) && base64_decoded(
                    strings_view(contents@)[j],
                ) is Some,
        decreases mappings@.len() - k,
    {
        let name = file_name_exec(mappings[k].local_file.as_str());
        let entry_name = join_entry_name(&mappings[k].root_relative_target_dir, name.as_str());
        proof {
            assert(entry_name@ == spec_artifact_entry_name(mappings@[k as int]));
        }
        let name_byte_len = entry_name.as_str().as_bytes().len();
        proof {
            assert(name_byte_len == encode_utf8(entry_name@).len());
        }
        if name_byte_len > 65535 {
            return Err(ProcessError::EntryNameTooLong { index: k });
        }
        proof {
            assert(entry_name_fits(mappings@[k as int]));
        }
        let bytes = match base64_decode(contents[k].as_str()) {
            Ok(b) => b,
            Err(_) => {
                proof {
                    assert(strings_view(contents@)[k as int] == contents@[k as int]@);
                }
                return Err(ProcessError::InvalidArtifactEncoding { index: k });
            },
        };
        proof {
            assert(strings_view(contents@)[k as int] == contents@[k as int]@);
        }
        if bytes.len() as u64 > 0xFFFF_FFFFu64 {
            return Err(ProcessError::ArtifactTooLarge { index: k });
        }
        match zip_start_file(&mut w, entry_name.as_str(), opts) {
            Ok(_) => (),
            Err(_) => {
                return Err(ProcessError::Container);
            },
        }
        match zip_write_entry_bytes(&mut w, bytes.as_slice()) {
            Ok(_) => (),
            Err(_) => {
                return Err(ProcessError::Container);
            },
        }
        proof {
            assert(zip_entries(w) =~= artifact_entries_prefix(
                base,
                mappings@,
                strings_view(contents@),
                k + 1,
            ));
        }
        k = k + 1;
    }
    let cdoc = render_conditions_doc(conds);
    if cdoc.len() as u64 > 0xFFFF_FFFFu64 {
        return Err(ProcessError::Container);
    }
    match zip_start_file(&mut w, "unlocking_conditions.json", opts) {
        Ok(_) => (),
        Err(_) => {
            return Err(ProcessError::Container);
        },
    }
    match zip_write_entry_bytes(&mut w, cdoc.as_slice()) {
        Ok(_) => (),
        Err(_) => {
            return Err(ProcessError::Container);
        },
    }
    proof {
        assert(zip_entries(w) =~= spec_archive_entries(
            *g,
            conds@,
            mappings@,
            strings_view(contents@),
        ));
    }
    match zip_finish(w) {
        Ok(b) => Ok(b),
        Err(_) => Err(ProcessError::Container),
    }
}

} // verus!
