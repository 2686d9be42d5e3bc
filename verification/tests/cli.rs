//! What the commands decide from what they are given.

use ctadl_ascent::cli::{
    artifact_language, autodetect_import_language, file_looks_binary, go_import_args,
    go_index_args, go_name, go_query_args, import_names, import_options, import_step,
    index_options, inspect_artifact, legacy_import_args, legacy_index_args, legacy_query_args,
    legacy_warnings, load_or_infer_project, query_outcome,
};
use ctadl_ascent::cli::{
    ArtifactFacts, ArtifactLanguage, CallResolutionStrategy, Command, GoArgs, ImportArgs,
    ImportEvent, ImportLanguage, ImportStep, IndexArgs, InspectArgs, InspectedPath, Inspection,
    LegacyIndexArgs, LegacyQueryArgs, LegacyTaintDirection, ProjectSource, QueryArgs, QueryStatus,
    StoreFiles,
};
use ctadl_ascent::error::Error;

fn texts(v: &[&str]) -> Vec<String> {
    v.iter().map(|s| s.to_string()).collect()
}

fn nothing_known() -> ArtifactFacts {
    ArtifactFacts {
        ghidra_server_url: false,
        is_dir: false,
        contains_lua: false,
        extension: None,
        looks_binary: false,
    }
}

fn file_with(extension: &str) -> ArtifactFacts {
    ArtifactFacts { extension: Some(extension.to_string()), ..nothing_known() }
}

fn detected(facts: ArtifactFacts) -> ImportLanguage {
    autodetect_import_language(&facts, ImportLanguage::Auto).expect("a language")
}

fn failure(r: Result<ImportLanguage, Error>) -> String {
    match r {
        Err(Error::Failed { message }) => message,
        other => panic!("expected a failure, got {other:?}"),
    }
}

fn import_args() -> ImportArgs {
    ImportArgs {
        artifact: "app.apk".to_string(),
        name: Some("app".to_string()),
        language: ImportLanguage::Apk,
        skip_existing: false,
        no_native_libs: true,
        native_abi: Some("arm64-v8a".to_string()),
    }
}

fn go_args() -> GoArgs {
    GoArgs {
        name: None,
        models: texts(&["m.json"]),
        no_default_models: true,
        no_jni_bridge: false,
        no_jni_registry: true,
        artifacts: texts(&["a.jar", "b.apk"]),
        output: "out.sarif".to_string(),
        sarif_profile: "human".to_string(),
        dump_taint_graph: Some("t.dot".to_string()),
        dump_index_graph: None,
        strategy: CallResolutionStrategy::Hi,
        language: ImportLanguage::Auto,
        skip_existing: true,
        no_native_libs: false,
        native_abi: Some("x86_64".to_string()),
    }
}

fn index_args() -> IndexArgs {
    IndexArgs {
        name: "proj".to_string(),
        progs: vec![],
        summary: vec![],
        models: vec![],
        no_default_models: false,
        no_jni_bridge: true,
        no_jni_registry: false,
        strategy: CallResolutionStrategy::Cha,
        prune_unreachable_cfg_nodes: Some(false),
        alias_rule: None,
        dump_index_graph: Some("i.dot".to_string()),
    }
}

#[test]
fn an_extension_tells_the_language() {
    for (ext, language) in [
        ("dex", ImportLanguage::Dex),
        ("apk", ImportLanguage::Apk),
        ("xapk", ImportLanguage::Xapk),
        ("class", ImportLanguage::Jvm),
        ("jar", ImportLanguage::Jar),
        ("lua", ImportLanguage::Lua),
        ("tnt", ImportLanguage::Flowy),
        ("gpr", ImportLanguage::Pcode),
        ("c", ImportLanguage::C),
        ("h", ImportLanguage::C),
    ] {
        assert_eq!(detected(file_with(ext)), language, "{ext}");
    }
}

#[test]
fn a_server_url_is_pcode_whatever_else_it_looks_like() {
    let facts = ArtifactFacts { ghidra_server_url: true, ..file_with("jar") };
    assert_eq!(detected(facts), ImportLanguage::Pcode);
}

#[test]
fn a_directory_is_lua_or_c() {
    let dir = ArtifactFacts { is_dir: true, ..nothing_known() };
    assert_eq!(detected(dir), ImportLanguage::C);
    let lua = ArtifactFacts { is_dir: true, contains_lua: true, ..nothing_known() };
    assert_eq!(detected(lua), ImportLanguage::Lua);
    let project = ArtifactFacts { is_dir: true, ..file_with("gpr") };
    assert_eq!(detected(project), ImportLanguage::Pcode);
}

#[test]
fn a_binary_file_without_a_telling_extension_is_pcode() {
    let facts = ArtifactFacts { looks_binary: true, ..file_with("bin") };
    assert_eq!(detected(facts), ImportLanguage::Pcode);
    let bare = ArtifactFacts { looks_binary: true, ..nothing_known() };
    assert_eq!(detected(bare), ImportLanguage::Pcode);
}

#[test]
fn an_unknown_artifact_is_an_error() {
    let r = autodetect_import_language(&file_with("txt"), ImportLanguage::Auto);
    assert_eq!(failure(r), "unrecognized filename extension: 'txt'");
    let r = autodetect_import_language(&nothing_known(), ImportLanguage::Auto);
    assert_eq!(failure(r), "no filename extension");
}

#[test]
fn a_named_language_needs_no_facts() {
    let r = autodetect_import_language(&file_with("txt"), ImportLanguage::Lua);
    assert_eq!(r.expect("a language"), ImportLanguage::Lua);
}

#[test]
fn a_nul_byte_marks_a_binary() {
    assert!(file_looks_binary(&vec![0x7f, b'E', b'L', b'F', 0, 1]));
    assert!(!file_looks_binary(&b"int main(void);".to_vec()));
    assert!(!file_looks_binary(&vec![]));
}

#[test]
fn a_language_is_stored_under_its_own_name() {
    assert_eq!(artifact_language(ImportLanguage::Xapk), ArtifactLanguage::Xapk);
    assert_eq!(artifact_language(ImportLanguage::Flowy), ArtifactLanguage::Flowy);
    assert_eq!(artifact_language(ImportLanguage::C), ArtifactLanguage::C);
}

#[test]
fn a_command_knows_its_first_artifact() {
    assert_eq!(Command::Import(import_args()).import_artifact(), "app.apk");
    assert_eq!(Command::Go(go_args()).import_artifact(), "a.jar");
}

#[test]
fn an_import_is_told_about_native_libraries() {
    let o = import_options(&import_args());
    assert!(!o.skip_existing);
    assert!(!o.native_libs);
    assert_eq!(o.native_abi.as_deref(), Some("arm64-v8a"));
}

#[test]
fn an_import_goes_through_its_steps() {
    let args = import_args();
    assert_eq!(import_step(&args, ImportEvent::Started), ImportStep::Create);
    assert_eq!(import_step(&args, ImportEvent::Created), ImportStep::Translate);
    assert_eq!(import_step(&args, ImportEvent::Translated), ImportStep::Reload);
    assert_eq!(import_step(&args, ImportEvent::Reloaded(false)), ImportStep::RecordHash);
    assert_eq!(import_step(&args, ImportEvent::HashRecorded), ImportStep::Finish);
}

#[test]
fn an_up_to_date_import_is_skipped_only_where_that_is_asked_for() {
    let args = ImportArgs { skip_existing: true, ..import_args() };
    assert_eq!(import_step(&args, ImportEvent::Started), ImportStep::CheckUpToDate);
    assert_eq!(import_step(&args, ImportEvent::Checked(true)), ImportStep::Finish);
    assert_eq!(import_step(&args, ImportEvent::Checked(false)), ImportStep::Create);
}

#[test]
fn a_remote_repository_is_not_hashed() {
    assert_eq!(import_step(&import_args(), ImportEvent::Reloaded(true)), ImportStep::Finish);
}

#[test]
fn a_project_without_imports_is_its_own_import() {
    assert_eq!(import_names(&index_args()), texts(&["proj"]));
    let args = IndexArgs { progs: texts(&["a", "b"]), ..index_args() };
    assert_eq!(import_names(&args), texts(&["a", "b"]));
}

#[test]
fn index_options_are_on_unless_switched_off() {
    let o = index_options(&index_args());
    assert!(!o.prune_unreachable_cfg_nodes);
    assert!(o.alias_rule);
    assert!(o.no_jni_bridge);
    assert!(!o.no_jni_registry);
    assert_eq!(o.strategy, CallResolutionStrategy::Cha);
    assert_eq!(o.dump_index_graph.as_deref(), Some("i.dot"));
}

#[test]
fn a_failed_query_says_where_to_look() {
    let args = QueryArgs {
        name: "proj".to_string(),
        models: vec![],
        output: "out.sarif".to_string(),
        sarif_profile: "human".to_string(),
        dump_taint_graph: None,
    };
    let status = |execution_successful, model_check_only| QueryStatus {
        execution_successful,
        model_check_only,
    };
    assert!(query_outcome(&args, status(true, false)).is_ok());
    assert!(query_outcome(&args, status(true, true)).is_ok());
    match query_outcome(&args, status(false, true)) {
        Err(Error::Failed { message }) => assert_eq!(
            message,
            "no index, so only the model files were checked; see 'out.sarif' for what they \
             match, then run `ctadl index proj`"
        ),
        other => panic!("expected a failure, got {other:?}"),
    }
    match query_outcome(&args, status(false, false)) {
        Err(Error::Failed { message }) => assert_eq!(
            message,
            "query produced no analyzable endpoints; see 'out.sarif' for details"
        ),
        other => panic!("expected a failure, got {other:?}"),
    }
}

#[test]
fn a_query_runs_on_a_project_or_else_an_import() {
    assert_eq!(load_or_infer_project(true, true), ProjectSource::Stored);
    assert_eq!(load_or_infer_project(true, false), ProjectSource::Stored);
    assert_eq!(load_or_infer_project(false, true), ProjectSource::Ephemeral);
    assert_eq!(load_or_infer_project(false, false), ProjectSource::Missing);
}

fn inspected(name: Option<&str>, dump_ir: bool, file: Option<&str>) -> Result<Inspection, Error> {
    let args = InspectArgs { name: name.map(|s| s.to_string()), dump_ir, function: None };
    let path = InspectedPath {
        stored_file: file.is_some(),
        extension: file.and_then(|f| f.rsplit_once('.')).map(|(_, e)| e.to_string()),
        file_name: file.map(|f| f.to_string()),
    };
    let files = StoreFiles {
        program_bitcode: "program.bin".to_string(),
        vmt_bitcode: "vmt.bin".to_string(),
        jni_registry: "jni.json".to_string(),
    };
    inspect_artifact(&args, &path, &files)
}

#[test]
fn an_inspection_shows_what_the_path_is() {
    assert_eq!(inspected(None, false, None).unwrap(), Inspection::Store);
    assert_eq!(inspected(Some("x"), false, None).unwrap(), Inspection::Summary);
    assert_eq!(inspected(Some("x"), true, None).unwrap(), Inspection::Ir);
    assert_eq!(inspected(Some("x"), true, Some("f.parquet")).unwrap(), Inspection::Parquet);
    assert_eq!(inspected(Some("x"), false, Some("program.bin")).unwrap(), Inspection::Bitcode);
    assert_eq!(inspected(Some("x"), false, Some("vmt.bin")).unwrap(), Inspection::Bitcode);
    assert_eq!(inspected(Some("x"), false, Some("jni.json")).unwrap(), Inspection::JniRegistry);
    assert_eq!(inspected(Some("x"), false, Some("other.txt")).unwrap(), Inspection::Summary);
}

#[test]
fn an_inspection_of_the_ir_needs_a_name() {
    match inspected(None, true, None) {
        Err(Error::Failed { message }) => {
            assert_eq!(message, "--dump-ir requires an artifact or project name")
        }
        other => panic!("expected a failure, got {other:?}"),
    }
}

#[test]
fn a_one_shot_run_is_named_after_its_first_artifact() {
    assert_eq!(go_name(&go_args(), "a"), ("a".to_string(), true));
    let one = GoArgs { artifacts: texts(&["a.jar"]), ..go_args() };
    assert_eq!(go_name(&one, "a"), ("a".to_string(), false));
    let named = GoArgs { name: Some("n".to_string()), ..go_args() };
    assert_eq!(go_name(&named, "a"), ("n".to_string(), false));
}

#[test]
fn a_one_shot_run_hands_its_options_on() {
    let import = go_import_args(&go_args(), 1);
    assert_eq!(import.artifact, "b.apk");
    assert!(import.name.is_none());
    assert!(import.skip_existing);
    assert_eq!(import.native_abi.as_deref(), Some("x86_64"));
    let index = go_index_args(&go_args(), "p", &texts(&["a", "b"]));
    assert_eq!(index.name, "p");
    assert_eq!(index.progs, texts(&["a", "b"]));
    assert_eq!(index.models, texts(&["m.json"]));
    assert!(index.no_default_models);
    assert!(index.no_jni_registry);
    assert_eq!(index.strategy, CallResolutionStrategy::Hi);
    let query = go_query_args(&go_args(), "p");
    assert_eq!(query.name, "p");
    assert_eq!(query.output, "out.sarif");
    assert_eq!(query.dump_taint_graph.as_deref(), Some("t.dot"));
}

#[test]
fn the_legacy_commands_share_one_project() {
    let index = LegacyIndexArgs { jobs: 4, facts_path: "facts".to_string() };
    let import = legacy_import_args(&index);
    assert_eq!(import.artifact, "facts");
    assert_eq!(import.name.as_deref(), Some("legacy_pcode"));
    assert_eq!(import.language, ImportLanguage::Pcode);
    let index = legacy_index_args(&texts(&["m.json"]));
    assert_eq!(index.name, "legacy_pcode");
    assert_eq!(index.progs, texts(&["legacy_pcode"]));
    assert_eq!(index.models, texts(&["m.json"]));
    assert_eq!(index.strategy, CallResolutionStrategy::Mixed);
}

fn legacy_query(direction: Option<LegacyTaintDirection>, no_compile: bool) -> LegacyQueryArgs {
    LegacyQueryArgs {
        compute_slices: direction,
        no_compile_analysis: no_compile,
        jobs: 1,
        format: "sarif".to_string(),
        query_file: "q.json".to_string(),
    }
}

#[test]
fn the_legacy_query_file_is_one_more_model() {
    let query = legacy_query_args(&texts(&["m.json"]), &legacy_query(None, false));
    assert_eq!(query.name, "legacy_pcode");
    assert_eq!(query.models, texts(&["m.json", "q.json"]));
    assert_eq!(query.output, "results.sarif");
    assert_eq!(query.sarif_profile, "human");
}

#[test]
fn the_legacy_query_warns_of_what_it_ignores() {
    assert!(legacy_warnings(&legacy_query(None, false)).is_empty());
    assert_eq!(
        legacy_warnings(&legacy_query(Some(LegacyTaintDirection::Fwd), true)),
        texts(&[
            "--compute-slices Fwd is currently ignored; the direction is controlled by the \
             query file",
            "--no-compile-analysis is currently ignored",
        ])
    );
}
