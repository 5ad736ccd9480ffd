use asset_migrator::engine::AssetConversion;
use asset_migrator::engine::FileAction;
use asset_migrator::engine::MigrationEngine;
use asset_migrator::engine::ProcessOutput;
use asset_migrator::extensions::default_extensions;
use asset_migrator::fingerprint::fingerprint_str;
use asset_migrator::index::build_index;
use asset_migrator::index::RemapTable;
use asset_migrator::meta_file::MetaFile;

const GUID_A: &str = "aaaaaaaaaaaaaaaaaaaaaaaaaaaaaaaa";
const GUID_B: &str = "bbbbbbbbbbbbbbbbbbbbbbbbbbbbbbbb";
const GUID_C: &str = "cccccccccccccccccccccccccccccccc";
const GUID_D: &str = "dddddddddddddddddddddddddddddddd";

fn record(dir: &str, base: &str, guid: &str) -> MetaFile {
    MetaFile {
        directory: String::from(dir),
        base_name: String::from(base),
        guid: String::from(guid),
        guid_hash: fingerprint_str(guid),
        base_hash: fingerprint_str(base),
    }
}

fn task(path: &str, output: &str) -> AssetConversion {
    AssetConversion {
        path: String::from(path),
        output_path: String::from(output),
    }
}

fn engine(missing: Vec<MetaFile>, remap: RemapTable) -> MigrationEngine {
    MigrationEngine::new(
        missing,
        remap,
        default_extensions(),
        String::from("src/Assets"),
        String::from("ConversionOutput"),
    )
}

fn rewritten_text(out: &ProcessOutput) -> String {
    out.rewritten.iter().collect()
}

fn action_reprs(out: &ProcessOutput) -> Vec<String> {
    out.actions
        .iter()
        .map(|a| match a {
            FileAction::EnsureDir { path } => format!("dir {}", path),
            FileAction::CopyIfAbsent { from, to } => format!("copy {} -> {}", from, to),
            FileAction::WriteRewritten { path } => format!("write {}", path),
        })
        .collect()
}

#[test]
fn remapped_reference_is_rewritten() {
    // renamed counterpart: same name fingerprint basis, other identifier
    let src = vec![record("src/Assets", "Foo.mat", GUID_A)];
    let mut renamed = record("dst/Assets", "Bar.mat", GUID_B);
    renamed.base_hash = fingerprint_str("Foo.mat");
    let dst = vec![renamed];
    let (missing, remap) = build_index(&src, &dst);
    assert_eq!(missing.len(), 0);
    assert_eq!(remap.lookup(GUID_A).unwrap().guid, GUID_B);

    let mut eng = engine(missing, remap);
    let content = format!("header\n  m_Ref: {{fileID: 2, guid: {}, type: 3}}\n", GUID_A);
    let out = eng.process_task(&task("src/Assets/Thing.prefab", "ConversionOutput"), &content);
    let expected = format!("header\n  m_Ref: {{fileID: 2, guid: {}, type: 3}}\n", GUID_B);
    assert_eq!(rewritten_text(&out), expected);
}

#[test]
fn unresolved_reference_is_left_unchanged() {
    let mut eng = engine(Vec::new(), RemapTable::new());
    let content = format!("guid: {} tail", GUID_D);
    let out = eng.process_task(&task("src/Assets/Thing.prefab", "ConversionOutput"), &content);
    assert_eq!(rewritten_text(&out), content);
    let reprs = action_reprs(&out);
    assert_eq!(
        reprs,
        vec![
            String::from("dir ConversionOutput"),
            String::from("write ConversionOutput/Thing.prefab"),
            String::from(
                "copy src/Assets/Thing.prefab.meta -> ConversionOutput/Thing.prefab.meta"
            ),
        ]
    );
}

#[test]
fn missing_reference_is_copied_and_dequeued() {
    // a referenced asset never present in the destination is copied to the
    // mirrored relative path, and its record leaves the missing set
    let src = vec![record("src/Assets/Deep", "Missing.asset", GUID_C)];
    let dst: Vec<MetaFile> = Vec::new();
    let (missing, remap) = build_index(&src, &dst);
    assert_eq!(missing.len(), 1);

    let mut eng = engine(missing, remap);
    let content = format!("ref guid: {} done\n", GUID_C);
    let out = eng.process_task(&task("src/Assets/Main.prefab", "ConversionOutput"), &content);

    let reprs = action_reprs(&out);
    assert!(reprs.contains(&String::from("dir ConversionOutput/Deep")));
    assert!(reprs.contains(&String::from(
        "copy src/Assets/Deep/Missing.asset -> ConversionOutput/Deep/Missing.asset"
    )));
    assert!(reprs.contains(&String::from(
        "copy src/Assets/Deep/Missing.asset.meta -> ConversionOutput/Deep/Missing.asset.meta"
    )));
    assert_eq!(eng.missing.len(), 0);
    // the reference text itself stays as it was
    assert_eq!(rewritten_text(&out), content);
    // a second reference to the same identifier is a no-op
    let out2 = eng.process_task(&task("src/Assets/Other.prefab", "ConversionOutput"), &content);
    let reprs2 = action_reprs(&out2);
    assert!(!reprs2.iter().any(|r| r.contains("Missing.asset ->")));
}

#[test]
fn convertible_missing_reference_is_enqueued() {
    let missing = vec![record("src/Assets/Sub", "Dep.mat", GUID_B)];
    let mut eng = engine(missing, RemapTable::new());
    let content = format!("guid: {}", GUID_B);
    eng.process_task(&task("src/Assets/Main.prefab", "ConversionOutput"), &content);
    assert_eq!(eng.queue.len(), 1);
    assert_eq!(eng.queue[0].path, "src/Assets/Sub/Dep.mat");
    assert_eq!(eng.queue[0].output_path, "ConversionOutput/Sub");
}

#[test]
fn transitive_chain_is_pulled_in() {
    // A references missing B (convertible), B references missing C:
    // migrating only A copies A, B and C into the export tree
    let missing = vec![
        record("src/Assets/Sub", "B.mat", GUID_B),
        record("src/Assets/Tex", "C.asset", GUID_C),
    ];
    let mut eng = engine(missing, RemapTable::new());

    let content_a = format!("a-header guid: {} a-tail", GUID_B);
    let out_a = eng.process_task(&task("src/Assets/A.prefab", "ConversionOutput"), &content_a);
    let reprs_a = action_reprs(&out_a);
    assert!(reprs_a.contains(&String::from(
        "copy src/Assets/Sub/B.mat -> ConversionOutput/Sub/B.mat"
    )));
    assert!(reprs_a.contains(&String::from("write ConversionOutput/A.prefab")));

    // the caller pops B and hands its text in, as the driver loop does
    let task_b = eng.pop_task().expect("B should have been enqueued");
    assert_eq!(task_b.path, "src/Assets/Sub/B.mat");
    assert_eq!(task_b.output_path, "ConversionOutput/Sub");
    let content_b = format!("b-header guid: {} b-tail", GUID_C);
    let out_b = eng.process_task(&task_b, &content_b);
    let reprs_b = action_reprs(&out_b);
    assert!(reprs_b.contains(&String::from(
        "copy src/Assets/Tex/C.asset -> ConversionOutput/Tex/C.asset"
    )));
    assert!(reprs_b.contains(&String::from("write ConversionOutput/Sub/B.mat")));

    // C is convertible too, so it was queued in turn; it references nothing
    let task_c = eng.pop_task().expect("C should have been enqueued");
    assert_eq!(task_c.path, "src/Assets/Tex/C.asset");
    assert_eq!(task_c.output_path, "ConversionOutput/Tex");
    let out_c = eng.process_task(&task_c, "c-body");
    let reprs_c = action_reprs(&out_c);
    assert!(reprs_c.contains(&String::from("write ConversionOutput/Tex/C.asset")));

    assert!(eng.pop_task().is_none());
    assert_eq!(eng.missing.len(), 0);
}

#[test]
fn identical_runs_produce_identical_output() {
    // two runs over the same inputs yield the same rewritten text and the
    // same actions; with copies skipping existing destination files, the
    // second run creates nothing new
    let build = || {
        let src = vec![
            record("src/Assets", "Foo.mat", GUID_A),
            record("src/Assets/Sub", "Dep.mat", GUID_B),
        ];
        let dst = vec![record("dst/Assets", "Foo.mat", GUID_D)];
        let (missing, remap) = build_index(&src, &dst);
        engine(missing, remap)
    };
    let content = format!("x guid: {} y guid: {} z", GUID_A, GUID_B);
    let t = task("src/Assets/Main.prefab", "ConversionOutput");

    let mut eng1 = build();
    let out1 = eng1.process_task(&t, &content);
    let mut eng2 = build();
    let out2 = eng2.process_task(&t, &content);

    assert_eq!(rewritten_text(&out1), rewritten_text(&out2));
    assert_eq!(action_reprs(&out1), action_reprs(&out2));
    assert_eq!(eng1.queue.len(), eng2.queue.len());
    assert_eq!(eng1.missing.len(), eng2.missing.len());
}

#[test]
fn tasks_pop_last_in_first_out() {
    let mut eng = engine(Vec::new(), RemapTable::new());
    eng.push_task(task("src/Assets/One.prefab", "out"));
    eng.push_task(task("src/Assets/Two.prefab", "out"));
    let t = eng.pop_task().unwrap();
    assert_eq!(t.path, "src/Assets/Two.prefab");
    let t = eng.pop_task().unwrap();
    assert_eq!(t.path, "src/Assets/One.prefab");
    assert!(eng.pop_task().is_none());
}

#[test]
fn initial_task_mirrors_the_requested_path() {
    let eng = engine(Vec::new(), RemapTable::new());
    let t = eng.initial_task("src/Assets/Sub/Thing.prefab");
    assert_eq!(t.path, "src/Assets/Sub/Thing.prefab");
    assert_eq!(t.output_path, "ConversionOutput/Sub");

    // a path outside the source root is taken relative to it
    let t2 = eng.initial_task("Sub/Other.prefab");
    assert_eq!(t2.path, "src/Assets/Sub/Other.prefab");
    assert_eq!(t2.output_path, "ConversionOutput/Sub");
}

#[test]
fn tasks_compare_by_source_path() {
    let a = task("src/Assets/One.prefab", "out1");
    let b = task("src/Assets/One.prefab", "out2");
    let c = task("src/Assets/Two.prefab", "out1");
    assert!(a == b);
    assert!(a != c);
}

#[test]
fn malformed_replacement_identifier_leaves_text_unchanged() {
    // a remap target whose identifier is not 32 characters long cannot be
    // written over the reference without corrupting it; it is left alone
    let mut remap = RemapTable::new();
    remap.insert(String::from(GUID_A), record("dst/Assets", "Odd.mat", "short"));
    let mut eng = engine(Vec::new(), remap);
    let content = format!("x guid: {} y", GUID_A);
    let out = eng.process_task(&task("src/Assets/Main.prefab", "ConversionOutput"), &content);
    assert_eq!(rewritten_text(&out), content);
}

#[test]
fn second_reference_in_one_asset_copies_once() {
    let missing = vec![record("src/Assets/Sub", "Dep.png", GUID_B)];
    let mut eng = engine(missing, RemapTable::new());
    let content = format!("guid: {} and again guid: {}", GUID_B, GUID_B);
    let out = eng.process_task(&task("src/Assets/Main.prefab", "ConversionOutput"), &content);
    let copies = action_reprs(&out)
        .iter()
        .filter(|r| r.contains("Dep.png ->"))
        .count();
    assert_eq!(copies, 1);
    assert_eq!(eng.missing.len(), 0);
}

#[test]
fn short_trailing_reference_is_tolerated() {
    // a marker too close to the end carries no full identifier and is left
    // alone rather than treated as a reference
    let missing = vec![record("src/Assets", "Dep.mat", GUID_B)];
    let mut eng = engine(missing, RemapTable::new());
    let content = "tail guid: bbbb";
    let out = eng.process_task(&task("src/Assets/Main.prefab", "ConversionOutput"), content);
    assert_eq!(rewritten_text(&out), content);
    assert_eq!(eng.missing.len(), 1);
}
