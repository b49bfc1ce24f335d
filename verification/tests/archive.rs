use std::io::Read;

use supercluster_archive::archive::artifact_paths_have_file_names;
use supercluster_archive::conditions::compile_conditions;
use supercluster_archive::graph::{Edge, EdgeType, Node, RootedSupercluster};
use supercluster_archive::render::{push_dec, render_conditions_doc, render_graph_doc};
use supercluster_archive::{process_paths, ArchivePayload, ArtifactMapping, ProcessError};

fn sample_graph() -> RootedSupercluster {
    RootedSupercluster {
        nodes: vec![
            Node { id: 1, title: "A".to_string() },
            Node { id: 2, title: "B".to_string() },
        ],
        edges: vec![
            Edge { source: 1, target: 2, edge_type: EdgeType::All },
            Edge { source: 1, target: 2, edge_type: EdgeType::AtLeastOne },
        ],
        roots: vec![1],
    }
}

#[test]
fn decimal_rendering() {
    let mut doc: Vec<u8> = Vec::new();
    push_dec(&mut doc, 0);
    push_dec(&mut doc, 907);
    push_dec(&mut doc, u64::MAX);
    assert_eq!(doc, b"090718446744073709551615".to_vec());
}

#[test]
fn graph_document_rendering() {
    let g = sample_graph();
    let doc = render_graph_doc(&g);
    let expected = "nodes:\n  - id: 1\n    title: A\n  - id: 2\n    title: B\n\
                    all_type_edges:\n  - start_id: 1\n    end_id: 2\n\
                    any_type_edges:\n  - start_id: 1\n    end_id: 2\n\
                    roots:\n  - 1\n";
    assert_eq!(String::from_utf8(doc).unwrap(), expected);
}

#[test]
fn graph_document_omits_empty_sections() {
    let g = RootedSupercluster {
        nodes: vec![Node { id: 3, title: "solo".to_string() }],
        edges: vec![],
        roots: vec![],
    };
    let doc = render_graph_doc(&g);
    assert_eq!(String::from_utf8(doc).unwrap(), "nodes:\n  - id: 3\n    title: solo\n");
}

#[test]
fn conditions_document_rendering() {
    let g = sample_graph();
    let map = compile_conditions(&g);
    let doc = render_conditions_doc(&map);
    let text = String::from_utf8(doc).unwrap();
    assert_eq!(text, "{\"1\":null,\"2\":{\"all_of\":[\"1\"],\"one_of\":[\"1\"]}}");
    let parsed: serde_json::Value = serde_json::from_str(&text).unwrap();
    assert!(parsed["1"].is_null());
    assert_eq!(parsed["2"]["all_of"][0], "1");
}

#[test]
fn archive_round_trip() {
    let g = sample_graph();
    let artifact_bytes: Vec<u8> = vec![0, 1, 2, 254, 255, 42];
    let payload = ArchivePayload {
        rooted_supercluster: g,
        artifact_mapping: vec![
            ArtifactMapping {
                local_file: "assets/logo.png".to_string(),
                root_relative_target_dir: "media".to_string(),
            },
            ArtifactMapping {
                local_file: "notes.txt".to_string(),
                root_relative_target_dir: "".to_string(),
            },
        ],
    };
    let contents = vec![
        base64::Engine::encode(&base64::engine::general_purpose::STANDARD, &artifact_bytes),
        base64::Engine::encode(&base64::engine::general_purpose::STANDARD, b"plain text"),
    ];
    assert!(payload.rooted_supercluster.check_wf());
    let (archive_b64, result) = process_paths(payload, &contents).expect("processing failed");
    assert_eq!(result.hash_set.len(), 2);
    assert_eq!(result.hash_set[0].local_file, "assets/logo.png");

    let archive_bytes =
        base64::Engine::decode(&base64::engine::general_purpose::STANDARD, &archive_b64).unwrap();
    let mut archive = zip::ZipArchive::new(std::io::Cursor::new(archive_bytes)).unwrap();
    assert_eq!(archive.len(), 4);

    let mut logo = Vec::new();
    {
        let mut entry = archive.by_name("media/logo.png").unwrap();
        entry.read_to_end(&mut logo).unwrap();
        assert_eq!(entry.compression(), zip::CompressionMethod::Stored);
        assert_eq!(entry.unix_mode(), Some(0o100755));
    }
    assert_eq!(logo, artifact_bytes);

    let mut notes = Vec::new();
    archive.by_name("notes.txt").unwrap().read_to_end(&mut notes).unwrap();
    assert_eq!(notes, b"plain text".to_vec());

    let mut graph_text = String::new();
    archive
        .by_name("serialized_complete_graph.yaml")
        .unwrap()
        .read_to_string(&mut graph_text)
        .unwrap();
    assert!(graph_text.starts_with("nodes:\n  - id: 1\n"));

    let mut cond_text = String::new();
    archive
        .by_name("unlocking_conditions.json")
        .unwrap()
        .read_to_string(&mut cond_text)
        .unwrap();
    let parsed: serde_json::Value = serde_json::from_str(&cond_text).unwrap();
    assert!(parsed["1"].is_null());
    assert_eq!(parsed["2"]["all_of"][0], "1");
}

#[test]
fn missing_file_names_are_detected() {
    // Malformed input is fatal: the caller rejects it before processing.
    for bad in ["", ".", "..", "a/..", "/"] {
        let mappings = vec![ArtifactMapping {
            local_file: bad.to_string(),
            root_relative_target_dir: "media".to_string(),
        }];
        assert!(!artifact_paths_have_file_names(&mappings), "path {:?}", bad);
    }
    let good = vec![
        ArtifactMapping {
            local_file: "a/b.txt".to_string(),
            root_relative_target_dir: "".to_string(),
        },
        ArtifactMapping {
            local_file: "assets/".to_string(),
            root_relative_target_dir: "media".to_string(),
        },
    ];
    assert!(artifact_paths_have_file_names(&good));
}

#[test]
fn invalid_artifact_encoding_is_reported() {
    let payload = ArchivePayload {
        rooted_supercluster: sample_graph(),
        artifact_mapping: vec![ArtifactMapping {
            local_file: "ok.bin".to_string(),
            root_relative_target_dir: "data".to_string(),
        }],
    };
    let contents = vec!["this is *not* base64!".to_string()];
    let r = process_paths(payload, &contents);
    assert_eq!(r.unwrap_err(), ProcessError::InvalidArtifactEncoding { index: 0 });
}

#[test]
fn trailing_separators_keep_the_base_name() {
    // A trailing slash or a trailing `.` component does not hide the file
    // name: the final real component is used.
    let payload = ArchivePayload {
        rooted_supercluster: sample_graph(),
        artifact_mapping: vec![
            ArtifactMapping {
                local_file: "assets/".to_string(),
                root_relative_target_dir: "media".to_string(),
            },
            ArtifactMapping {
                local_file: "deep/path/.".to_string(),
                root_relative_target_dir: "".to_string(),
            },
        ],
    };
    let contents = vec![
        base64::Engine::encode(&base64::engine::general_purpose::STANDARD, b"one"),
        base64::Engine::encode(&base64::engine::general_purpose::STANDARD, b"two"),
    ];
    let (archive_b64, _) = process_paths(payload, &contents).expect("processing failed");
    let archive_bytes =
        base64::Engine::decode(&base64::engine::general_purpose::STANDARD, &archive_b64).unwrap();
    let mut archive = zip::ZipArchive::new(std::io::Cursor::new(archive_bytes)).unwrap();
    let mut one = Vec::new();
    archive.by_name("media/assets").unwrap().read_to_end(&mut one).unwrap();
    assert_eq!(one, b"one".to_vec());
    let mut two = Vec::new();
    archive.by_name("path").unwrap().read_to_end(&mut two).unwrap();
    assert_eq!(two, b"two".to_vec());
}

#[test]
fn trailing_slash_directory_join() {
    let payload = ArchivePayload {
        rooted_supercluster: sample_graph(),
        artifact_mapping: vec![ArtifactMapping {
            local_file: "deep/path/data.bin".to_string(),
            root_relative_target_dir: "out/".to_string(),
        }],
    };
    let contents = vec![base64::Engine::encode(
        &base64::engine::general_purpose::STANDARD,
        b"zzz",
    )];
    let (archive_b64, _) = process_paths(payload, &contents).expect("processing failed");
    let archive_bytes =
        base64::Engine::decode(&base64::engine::general_purpose::STANDARD, &archive_b64).unwrap();
    let mut archive = zip::ZipArchive::new(std::io::Cursor::new(archive_bytes)).unwrap();
    let mut data = Vec::new();
    archive.by_name("out/data.bin").unwrap().read_to_end(&mut data).unwrap();
    assert_eq!(data, b"zzz".to_vec());
}

#[test]
fn empty_graph_and_no_artifacts() {
    let g = RootedSupercluster { nodes: vec![], edges: vec![], roots: vec![] };
    assert!(g.check_wf());
    let payload = ArchivePayload { rooted_supercluster: g, artifact_mapping: vec![] };
    let contents: Vec<String> = vec![];
    let (archive_b64, result) = process_paths(payload, &contents).expect("processing failed");
    assert!(result.hash_set.is_empty());
    let archive_bytes =
        base64::Engine::decode(&base64::engine::general_purpose::STANDARD, &archive_b64).unwrap();
    let mut archive = zip::ZipArchive::new(std::io::Cursor::new(archive_bytes)).unwrap();
    assert_eq!(archive.len(), 2);
    let mut graph_text = String::new();
    archive
        .by_name("serialized_complete_graph.yaml")
        .unwrap()
        .read_to_string(&mut graph_text)
        .unwrap();
    assert_eq!(graph_text, "nodes:\n");
    let mut cond_text = String::new();
    archive
        .by_name("unlocking_conditions.json")
        .unwrap()
        .read_to_string(&mut cond_text)
        .unwrap();
    assert_eq!(cond_text, "{}");
}

#[test]
fn titles_keep_their_unicode() {
    let g = RootedSupercluster {
        nodes: vec![Node { id: 7, title: "métier — 数学".to_string() }],
        edges: vec![],
        roots: vec![],
    };
    let doc = render_graph_doc(&g);
    assert_eq!(String::from_utf8(doc).unwrap(), "nodes:\n  - id: 7\n    title: métier — 数学\n");
}
