//! The command line: what each command is given, and what it decides from it.
//!
//! Paths are held as text.

use vstd::prelude::*;
use crate::error::{Error, ErrorView};
use crate::text::{joined, same};

verus! {

/// How calls are resolved while indexing.
#[derive(Debug, Clone, Copy, PartialEq, Eq, Structural)]
pub enum CallResolutionStrategy {
    Cha,
    Hi,
    Mixed,
}

/// Import artifacts, index programs, and run or query analyses.
#[derive(Debug)]
pub struct Cli {
    /// Directory to use as the store. The store has a default place where this is omitted.
    pub store: Option<String>,
    pub cmd: Command,
}

/// A command.
#[derive(Debug)]
pub enum Command {
    /// Import a single artifact.
    Import(ImportArgs),
    /// Index imported artifacts under a project name.
    Index(IndexArgs),
    /// Run a taint analysis query.
    Query(QueryArgs),
    /// One-shot: import artifacts, index them under a name, and query.
    Go(GoArgs),
    /// Write a template model file.
    InitModel(InitModelArgs),
    /// Inspect the store.
    Inspect(InspectArgs),
    /// Index and query commands for integration with Ghidra.
    LegacyPcodeCli(LegacyPcodeCliArgs),
}

/// Where a template model file is written.
#[derive(Debug)]
pub struct InitModelArgs {
    pub output: String,
}

/// Arguments of the legacy commands.
#[derive(Debug)]
pub struct LegacyPcodeCliArgs {
    /// Directory where the store is located.
    pub directory: Option<String>,
    pub cmd: LegacyPcodeSubcommand,
    pub models: Vec<String>,
}

/// A legacy command.
#[derive(Debug)]
pub enum LegacyPcodeSubcommand {
    Index(LegacyIndexArgs),
    Query(LegacyQueryArgs),
}

/// Arguments of the legacy index command.
#[derive(Debug)]
pub struct LegacyIndexArgs {
    /// Number of parallel jobs (ignored).
    pub jobs: usize,
    /// Directory containing pcode facts.
    pub facts_path: String,
}

/// Arguments of the legacy query command.
#[derive(Debug)]
pub struct LegacyQueryArgs {
    /// Taint direction to compute slices for (ignored).
    pub compute_slices: Option<LegacyTaintDirection>,
    /// Skip compiling the analysis (ignored).
    pub no_compile_analysis: bool,
    /// Number of parallel jobs (ignored).
    pub jobs: usize,
    /// Output format.
    pub format: String,
    pub query_file: String,
}

/// A taint direction.
#[derive(Debug, Clone, Copy, PartialEq, Eq, Structural)]
pub enum LegacyTaintDirection {
    All,
    Fwd,
    Bwd,
}

/// Arguments of an import.
#[derive(Debug)]
pub struct ImportArgs {
    /// Artifact to import (file or directory).
    pub artifact: String,
    /// Name for the artifact; the file name by default.
    pub name: Option<String>,
    pub language: ImportLanguage,
    /// Skip the import if an up-to-date one of the same name exists.
    pub skip_existing: bool,
    /// Do not import the native libraries packaged inside an APK.
    pub no_native_libs: bool,
    /// The ABI whose native libraries are imported.
    pub native_abi: Option<String>,
}

/// What an artifact is imported as.
#[derive(Debug, Clone, Copy, PartialEq, Eq, Structural)]
pub enum ImportLanguage {
    /// JVM bytecode.
    Jvm,
    /// A JAR of JVM bytecode.
    Jar,
    /// Android DEX.
    Dex,
    /// An Android APK.
    Apk,
    /// An Android app bundle, a ZIP of split APKs.
    Xapk,
    /// C sources.
    C,
    /// Lua sources.
    Lua,
    /// Pcode exported by Ghidra.
    Pcode,
    /// A Flowy file.
    Flowy,
    /// To be inferred.
    Auto,
}

/// The language of an artifact, once it is known.
#[derive(Debug, Clone, Copy, PartialEq, Eq, Structural)]
pub enum ArtifactLanguage {
    Jvm,
    Jar,
    Dex,
    Apk,
    Xapk,
    C,
    Lua,
    Pcode,
    Flowy,
}

/// Arguments of an inspection.
#[derive(Debug)]
pub struct InspectArgs {
    /// Artifact name, project name, or path in the store.
    pub name: Option<String>,
    /// Print the imported IR instead of summary statistics.
    pub dump_ir: bool,
    /// Only print functions whose name contains this.
    pub function: Option<String>,
}

/// Arguments of indexing.
#[derive(Debug)]
pub struct IndexArgs {
    /// Name of the project.
    pub name: String,
    /// Names of the imports to index together. If there is none, the project's name also names
    /// the import.
    pub progs: Vec<String>,
    /// Projects to load summaries from.
    pub summary: Vec<String>,
    /// Model files.
    pub models: Vec<String>,
    pub no_default_models: bool,
    pub no_jni_bridge: bool,
    pub no_jni_registry: bool,
    pub strategy: CallResolutionStrategy,
    /// On by default.
    pub prune_unreachable_cfg_nodes: Option<bool>,
    /// On by default.
    pub alias_rule: Option<bool>,
    pub dump_index_graph: Option<String>,
}

/// Arguments of a query.
#[derive(Debug)]
pub struct QueryArgs {
    /// Name of the project.
    pub name: String,
    /// Model files.
    pub models: Vec<String>,
    pub output: String,
    /// Name of the SARIF profile.
    pub sarif_profile: String,
    pub dump_taint_graph: Option<String>,
}

/// Arguments of the one-shot command.
#[derive(Debug)]
pub struct GoArgs {
    /// Name of the project; inferred from the first artifact by default.
    pub name: Option<String>,
    /// Model files.
    pub models: Vec<String>,
    pub no_default_models: bool,
    pub no_jni_bridge: bool,
    pub no_jni_registry: bool,
    /// Artifacts to import.
    pub artifacts: Vec<String>,
    pub output: String,
    /// Name of the SARIF profile.
    pub sarif_profile: String,
    pub dump_taint_graph: Option<String>,
    pub dump_index_graph: Option<String>,
    pub strategy: CallResolutionStrategy,
    pub language: ImportLanguage,
    pub skip_existing: bool,
    pub no_native_libs: bool,
    pub native_abi: Option<String>,
}

/// Whether a command is given an artifact.
pub open spec fn has_artifact(c: Command) -> bool {
    match c {
        Command::Import(_) => true,
        Command::Go(args) => args.artifacts@.len() > 0,
        _ => false,
    }
}

impl Command {
    /// The artifact the command is given; the first, where there are several.
    pub fn import_artifact(&self) -> (artifact: &String)
        requires
            has_artifact(*self),
        ensures
            *self matches Command::Import(args) ==> *artifact == args.artifact,
            *self matches Command::Go(args) ==> *artifact == args.artifacts@[0],
    {
        match self {
            Command::Import(args) => &args.artifact,
            Command::Go(args) => &args.artifacts[0],
            _ => vstd::pervasive::unreached(),
        }
    }
}

/// A copy of some strings.
fn copied_texts(v: &Vec<String>) -> (w: Vec<String>)
    ensures
        w@ == v@,
{
    let mut w: Vec<String> = Vec::new();
    for i in 0..v.len()
        invariant
            w@ == v@.take(i as int),
    {
        w.push(v[i].clone());
        assert(w@ =~= v@.take(i + 1));
    }
    assert(v@.take(v@.len() as int) =~= v@);
    w
}

/// A copy of a string that may be absent.
fn copied_text(s: &Option<String>) -> (t: Option<String>)
    ensures
        t == *s,
{
    match s {
        Some(s) => Some(s.clone()),
        None => None,
    }
}

/// What is known of an artifact on disk, as far as its language is inferred from it.
#[derive(Debug)]
pub struct ArtifactFacts {
    /// The artifact is the URL of a Ghidra Server repository.
    pub ghidra_server_url: bool,
    pub is_dir: bool,
    /// The artifact is a directory tree with a `.lua` file in it.
    pub contains_lua: bool,
    /// The extension of its file name, where it is text.
    pub extension: Option<String>,
    /// The artifact is a file that looks binary.
    pub looks_binary: bool,
}

/// The language a file name's extension stands for.
pub open spec fn extension_language(ext: Seq<char>) -> Option<ImportLanguage> {
    if ext == "dex"@ {
        Some(ImportLanguage::Dex)
    } else if ext == "apk"@ {
        Some(ImportLanguage::Apk)
    } else if ext == "xapk"@ {
        Some(ImportLanguage::Xapk)
    } else if ext == "class"@ {
        Some(ImportLanguage::Jvm)
    } else if ext == "jar"@ {
        Some(ImportLanguage::Jar)
    } else if ext == "lua"@ {
        Some(ImportLanguage::Lua)
    } else if ext == "tnt"@ {
        Some(ImportLanguage::Flowy)
    } else if ext == "gpr"@ {
        Some(ImportLanguage::Pcode)
    } else if ext == "c"@ || ext == "h"@ {
        Some(ImportLanguage::C)
    } else {
        None
    }
}

fn language_of_extension(ext: &str) -> (l: Option<ImportLanguage>)
    ensures
        l == extension_language(ext@),
{
    if same(ext, "dex") {
        Some(ImportLanguage::Dex)
    } else if same(ext, "apk") {
        Some(ImportLanguage::Apk)
    } else if same(ext, "xapk") {
        Some(ImportLanguage::Xapk)
    } else if same(ext, "class") {
        Some(ImportLanguage::Jvm)
    } else if same(ext, "jar") {
        Some(ImportLanguage::Jar)
    } else if same(ext, "lua") {
        Some(ImportLanguage::Lua)
    } else if same(ext, "tnt") {
        Some(ImportLanguage::Flowy)
    } else if same(ext, "gpr") {
        Some(ImportLanguage::Pcode)
    } else if same(ext, "c") || same(ext, "h") {
        Some(ImportLanguage::C)
    } else {
        None
    }
}

/// What an artifact is imported as, where the command asks for `language`.
pub open spec fn detected_language(
    facts: ArtifactFacts,
    language: ImportLanguage,
) -> Result<ImportLanguage, ErrorView> {
    let by_extension = match facts.extension {
        Some(e) => extension_language(e@),
        None => None,
    };
    if language != ImportLanguage::Auto {
        Ok(language)
    } else if facts.ghidra_server_url {
        Ok(ImportLanguage::Pcode)
    } else if facts.is_dir && facts.contains_lua {
        Ok(ImportLanguage::Lua)
    } else if by_extension is Some {
        Ok(by_extension->0)
    } else if facts.is_dir {
        Ok(ImportLanguage::C)
    } else if facts.looks_binary {
        Ok(ImportLanguage::Pcode)
    } else {
        match facts.extension {
            Some(e) => Err(
                ErrorView::Failed("unrecognized filename extension: '"@ + e@ + "'"@),
            ),
            None => Err(ErrorView::Failed("no filename extension"@)),
        }
    }
}

/// If `language` is `Auto`, infers the language from what is known of the artifact.
///
/// # Errors
///
/// If nothing tells what the artifact is.
pub fn autodetect_import_language(facts: &ArtifactFacts, language: ImportLanguage) -> (r: Result<
    ImportLanguage,
    Error,
>)
    ensures
        match r {
            Ok(l) => detected_language(*facts, language) == Ok::<_, ErrorView>(l),
            Err(e) => detected_language(*facts, language) == Err::<ImportLanguage, _>(e@),
        },
{
    if language != ImportLanguage::Auto {
        return Ok(language);
    }
    if facts.ghidra_server_url {
        return Ok(ImportLanguage::Pcode);
    }
    if facts.is_dir && facts.contains_lua {
        return Ok(ImportLanguage::Lua);
    }
    if let Some(ext) = &facts.extension {
        if let Some(l) = language_of_extension(ext.as_str()) {
            return Ok(l);
        }
    }
    if facts.is_dir {
        return Ok(ImportLanguage::C);
    }
    if facts.looks_binary {
        return Ok(ImportLanguage::Pcode);
    }
    match &facts.extension {
        Some(ext) => {
            let mut message = joined("unrecognized filename extension: '", ext.as_str());
            message.append("'");
            Err(Error::Failed { message })
        },
        None => Err(Error::Failed { message: String::from_str("no filename extension") }),
    }
}

/// A detected language is never `Auto`, so that there is a language to import the artifact as.
pub proof fn a_detected_language_is_definite(facts: ArtifactFacts, language: ImportLanguage)
    ensures
        detected_language(facts, language) matches Ok(l) ==> l != ImportLanguage::Auto,
{
}

/// A language that the command names is taken as it is, whatever the artifact is.
pub proof fn a_named_language_is_taken_as_it_is(facts: ArtifactFacts, language: ImportLanguage)
    requires
        language != ImportLanguage::Auto,
    ensures
        detected_language(facts, language) == Ok::<_, ErrorView>(language),
{
}

/// Whether the start of a file holds a NUL byte, which is taken as the mark of a binary file.
pub fn file_looks_binary(prefix: &Vec<u8>) -> (b: bool)
    ensures
        b == prefix@.contains(0),
{
    let mut i: usize = 0;
    while i < prefix.len()
        invariant
            i <= prefix@.len(),
            forall|j: int| 0 <= j < i ==> prefix@[j] != 0,
        decreases prefix@.len() - i,
    {
        if prefix[i] == 0 {
            assert(prefix@[i as int] == 0);
            return true;
        }
        i = i + 1;
    }
    false
}

/// The language an artifact is stored under.
pub open spec fn stored_language(l: ImportLanguage) -> ArtifactLanguage {
    match l {
        ImportLanguage::Jvm => ArtifactLanguage::Jvm,
        ImportLanguage::Jar => ArtifactLanguage::Jar,
        ImportLanguage::Dex => ArtifactLanguage::Dex,
        ImportLanguage::Apk => ArtifactLanguage::Apk,
        ImportLanguage::Xapk => ArtifactLanguage::Xapk,
        ImportLanguage::C => ArtifactLanguage::C,
        ImportLanguage::Lua => ArtifactLanguage::Lua,
        ImportLanguage::Pcode => ArtifactLanguage::Pcode,
        _ => ArtifactLanguage::Flowy,
    }
}

/// The language an artifact is stored under.
pub fn artifact_language(l: ImportLanguage) -> (a: ArtifactLanguage)
    requires
        l != ImportLanguage::Auto,
    ensures
        a == stored_language(l),
{
    match l {
        ImportLanguage::Jvm => ArtifactLanguage::Jvm,
        ImportLanguage::Jar => ArtifactLanguage::Jar,
        ImportLanguage::Dex => ArtifactLanguage::Dex,
        ImportLanguage::Apk => ArtifactLanguage::Apk,
        ImportLanguage::Xapk => ArtifactLanguage::Xapk,
        ImportLanguage::C => ArtifactLanguage::C,
        ImportLanguage::Lua => ArtifactLanguage::Lua,
        ImportLanguage::Pcode => ArtifactLanguage::Pcode,
        ImportLanguage::Flowy => ArtifactLanguage::Flowy,
        ImportLanguage::Auto => ArtifactLanguage::Flowy,
    }
}

/// What an import is told apart from the artifact.
#[derive(Debug)]
pub struct ImportOptions {
    pub skip_existing: bool,
    pub native_libs: bool,
    pub native_abi: Option<String>,
}

/// What an import is told.
pub fn import_options(args: &ImportArgs) -> (o: ImportOptions)
    ensures
        o.skip_existing == args.skip_existing,
        o.native_libs == !args.no_native_libs,
        o.native_abi == args.native_abi,
{
    ImportOptions {
        skip_existing: args.skip_existing,
        native_libs: !args.no_native_libs,
        native_abi: copied_text(&args.native_abi),
    }
}

/// The next thing to do for an import.
#[derive(Debug, Clone, Copy, PartialEq, Eq, Structural)]
pub enum ImportStep {
    /// Find out whether an import of the same name is up to date.
    CheckUpToDate,
    /// Create the import in the store.
    Create,
    /// Translate the artifact.
    Translate,
    /// Load the import back, with what the translation recorded on it.
    Reload,
    /// Record the hash of the artifact's contents.
    RecordHash,
    /// Done; the import exists.
    Finish,
}

/// What an import has just done.
#[derive(Debug, Clone, Copy, PartialEq, Eq, Structural)]
pub enum ImportEvent {
    Started,
    /// Whether an import of the same name is up to date.
    Checked(bool),
    Created,
    Translated,
    /// Whether the artifact is the URL of a Ghidra Server repository.
    Reloaded(bool),
    HashRecorded,
}

/// What follows `event` in an import. An artifact is only looked up in the store where the command
/// allows skipping; a remote repository cannot be hashed.
pub open spec fn import_follows(skip_existing: bool, event: ImportEvent) -> ImportStep {
    match event {
        ImportEvent::Started => if skip_existing {
            ImportStep::CheckUpToDate
        } else {
            ImportStep::Create
        },
        ImportEvent::Checked(up_to_date) => if up_to_date {
            ImportStep::Finish
        } else {
            ImportStep::Create
        },
        ImportEvent::Created => ImportStep::Translate,
        ImportEvent::Translated => ImportStep::Reload,
        ImportEvent::Reloaded(remote) => if remote {
            ImportStep::Finish
        } else {
            ImportStep::RecordHash
        },
        ImportEvent::HashRecorded => ImportStep::Finish,
    }
}

/// What to do next in an import.
pub fn import_step(args: &ImportArgs, event: ImportEvent) -> (step: ImportStep)
    ensures
        step == import_follows(args.skip_existing, event),
{
    match event {
        ImportEvent::Started => if args.skip_existing {
            ImportStep::CheckUpToDate
        } else {
            ImportStep::Create
        },
        ImportEvent::Checked(up_to_date) => if up_to_date {
            ImportStep::Finish
        } else {
            ImportStep::Create
        },
        ImportEvent::Created => ImportStep::Translate,
        ImportEvent::Translated => ImportStep::Reload,
        ImportEvent::Reloaded(remote) => if remote {
            ImportStep::Finish
        } else {
            ImportStep::RecordHash
        },
        ImportEvent::HashRecorded => ImportStep::Finish,
    }
}

/// The names of the imports that go into a project: the project's own name where none is given.
pub open spec fn effective_progs(args: IndexArgs) -> Seq<String> {
    if args.progs@.len() == 0 {
        seq![args.name]
    } else {
        args.progs@
    }
}

/// The names of the imports that go into a project.
pub fn import_names(args: &IndexArgs) -> (names: Vec<String>)
    ensures
        names@ == effective_progs(*args),
{
    if args.progs.len() == 0 {
        let mut names: Vec<String> = Vec::new();
        names.push(args.name.clone());
        assert(names@ =~= seq![args.name]);
        names
    } else {
        copied_texts(&args.progs)
    }
}

/// What indexing is told.
#[derive(Debug)]
pub struct IndexOptions {
    pub no_jni_bridge: bool,
    pub no_jni_registry: bool,
    pub strategy: CallResolutionStrategy,
    pub prune_unreachable_cfg_nodes: bool,
    pub alias_rule: bool,
    pub dump_index_graph: Option<String>,
}

/// Whether an option that is on by default is on.
pub open spec fn on_by_default(o: Option<bool>) -> bool {
    o != Some(false)
}

/// What indexing is told.
pub fn index_options(args: &IndexArgs) -> (o: IndexOptions)
    ensures
        o.no_jni_bridge == args.no_jni_bridge,
        o.no_jni_registry == args.no_jni_registry,
        o.strategy == args.strategy,
        o.prune_unreachable_cfg_nodes == on_by_default(args.prune_unreachable_cfg_nodes),
        o.alias_rule == on_by_default(args.alias_rule),
        o.dump_index_graph == args.dump_index_graph,
{
    IndexOptions {
        no_jni_bridge: args.no_jni_bridge,
        no_jni_registry: args.no_jni_registry,
        strategy: args.strategy,
        prune_unreachable_cfg_nodes: match args.prune_unreachable_cfg_nodes {
            Some(b) => b,
            None => true,
        },
        alias_rule: match args.alias_rule {
            Some(b) => b,
            None => true,
        },
        dump_index_graph: copied_text(&args.dump_index_graph),
    }
}

/// How a query ended.
#[derive(Debug, Clone, Copy)]
pub struct QueryStatus {
    pub execution_successful: bool,
    /// There was no index, so that only the model files were checked.
    pub model_check_only: bool,
}

/// What a query that ended with `status` returns. The output file is written by then, and explains
/// a failure.
pub open spec fn query_result(args: QueryArgs, status: QueryStatus) -> Result<(), ErrorView> {
    if status.execution_successful {
        Ok(())
    } else if status.model_check_only {
        Err(
            ErrorView::Failed(
                "no index, so only the model files were checked; see '"@ + args.output@
                    + "' for what they match, then run `ctadl index "@ + args.name@ + "`"@,
            ),
        )
    } else {
        Err(
            ErrorView::Failed(
                "query produced no analyzable endpoints; see '"@ + args.output@
                    + "' for details"@,
            ),
        )
    }
}

/// What a query that ended with `status` returns.
///
/// # Errors
///
/// If the query was not executed successfully.
pub fn query_outcome(args: &QueryArgs, status: QueryStatus) -> (r: Result<(), Error>)
    ensures
        match r {
            Ok(()) => query_result(*args, status) == Ok::<(), ErrorView>(()),
            Err(e) => query_result(*args, status) == Err::<(), _>(e@),
        },
{
    if status.execution_successful {
        return Ok(());
    }
    if status.model_check_only {
        let mut message = joined(
            "no index, so only the model files were checked; see '",
            args.output.as_str(),
        );
        message.append("' for what they match, then run `ctadl index ");
        message.append(args.name.as_str());
        message.append("`");
        Err(Error::Failed { message })
    } else {
        let mut message = joined(
            "query produced no analyzable endpoints; see '",
            args.output.as_str(),
        );
        message.append("' for details");
        Err(Error::Failed { message })
    }
}

/// The project a query runs on.
#[derive(Debug, Clone, Copy, PartialEq, Eq, Structural)]
pub enum ProjectSource {
    /// The stored project of that name.
    Stored,
    /// The project that the import of that name would be indexed into.
    Ephemeral,
    /// There is neither; the error of loading the project is reported.
    Missing,
}

/// The project a name denotes, given whether there is a project and, where there is none, an
/// import of that name.
pub fn load_or_infer_project(has_project: bool, has_import: bool) -> (s: ProjectSource)
    ensures
        s == ProjectSource::Stored <==> has_project,
        s == ProjectSource::Ephemeral <==> !has_project && has_import,
{
    if has_project {
        ProjectSource::Stored
    } else if has_import {
        ProjectSource::Ephemeral
    } else {
        ProjectSource::Missing
    }
}

/// What is known of the path that an inspection is given.
#[derive(Debug)]
pub struct InspectedPath {
    /// The path is a file inside the store.
    pub stored_file: bool,
    pub extension: Option<String>,
    pub file_name: Option<String>,
}

/// The names of the files of an import.
#[derive(Debug)]
pub struct StoreFiles {
    pub program_bitcode: String,
    pub vmt_bitcode: String,
    pub jni_registry: String,
}

/// What an inspection shows.
#[derive(Debug, Clone, Copy, PartialEq, Eq, Structural)]
pub enum Inspection {
    Parquet,
    Bitcode,
    JniRegistry,
    /// The IR of the import of that name.
    Ir,
    /// Statistics of the import of that name.
    Summary,
    /// What the store contains.
    Store,
}

/// Whether `o` holds the text `s`.
pub open spec fn is_text(o: Option<String>, s: Seq<char>) -> bool {
    o is Some && o->0@ == s
}

fn holds_text(o: &Option<String>, s: &str) -> (b: bool)
    ensures
        b == is_text(*o, s@),
{
    match o {
        Some(t) => same(t.as_str(), s),
        None => false,
    }
}

/// What an inspection shows.
pub open spec fn inspection(args: InspectArgs, path: InspectedPath, files: StoreFiles) -> Result<
    Inspection,
    ErrorView,
> {
    if args.name is None {
        if args.dump_ir {
            Err(ErrorView::Failed("--dump-ir requires an artifact or project name"@))
        } else {
            Ok(Inspection::Store)
        }
    } else if path.stored_file && is_text(path.extension, "parquet"@) {
        Ok(Inspection::Parquet)
    } else if path.stored_file && (is_text(path.file_name, files.program_bitcode@) || is_text(
        path.file_name,
        files.vmt_bitcode@,
    )) {
        Ok(Inspection::Bitcode)
    } else if path.stored_file && is_text(path.file_name, files.jni_registry@) {
        Ok(Inspection::JniRegistry)
    } else if args.dump_ir {
        Ok(Inspection::Ir)
    } else {
        Ok(Inspection::Summary)
    }
}

/// What an inspection shows.
///
/// # Errors
///
/// If the IR is asked for without saying of what.
pub fn inspect_artifact(args: &InspectArgs, path: &InspectedPath, files: &StoreFiles) -> (r: Result<
    Inspection,
    Error,
>)
    ensures
        match r {
            Ok(i) => inspection(*args, *path, *files) == Ok::<_, ErrorView>(i),
            Err(e) => inspection(*args, *path, *files) == Err::<Inspection, _>(e@),
        },
{
    if args.name.is_none() {
        if args.dump_ir {
            return Err(
                Error::Failed {
                    message: String::from_str("--dump-ir requires an artifact or project name"),
                },
            );
        }
        return Ok(Inspection::Store);
    }
    if path.stored_file {
        if holds_text(&path.extension, "parquet") {
            return Ok(Inspection::Parquet);
        }
        if holds_text(&path.file_name, files.program_bitcode.as_str()) || holds_text(
            &path.file_name,
            files.vmt_bitcode.as_str(),
        ) {
            return Ok(Inspection::Bitcode);
        }
        if holds_text(&path.file_name, files.jni_registry.as_str()) {
            return Ok(Inspection::JniRegistry);
        }
    }
    if args.dump_ir {
        Ok(Inspection::Ir)
    } else {
        Ok(Inspection::Summary)
    }
}

/// The name of the project of a one-shot run, and whether to warn that it was inferred from the
/// first of several artifacts.
pub fn go_name(args: &GoArgs, inferred: &str) -> (r: (String, bool))
    ensures
        args.name matches Some(n) ==> r.0 == n && !r.1,
        args.name is None ==> r.0@ == inferred@ && r.1 == (args.artifacts@.len() > 1),
{
    match &args.name {
        Some(n) => (n.clone(), false),
        None => (String::from_str(inferred), args.artifacts.len() > 1),
    }
}

/// How a one-shot run imports its artifact `i`.
pub fn go_import_args(args: &GoArgs, i: usize) -> (a: ImportArgs)
    requires
        i < args.artifacts@.len(),
    ensures
        a == (ImportArgs {
            artifact: args.artifacts@[i as int],
            name: None,
            language: args.language,
            skip_existing: args.skip_existing,
            no_native_libs: args.no_native_libs,
            native_abi: args.native_abi,
        }),
{
    ImportArgs {
        artifact: args.artifacts[i].clone(),
        name: None,
        language: args.language,
        skip_existing: args.skip_existing,
        no_native_libs: args.no_native_libs,
        native_abi: copied_text(&args.native_abi),
    }
}

/// How a one-shot run indexes the imports `imported` into the project `name`.
pub fn go_index_args(args: &GoArgs, name: &str, imported: &Vec<String>) -> (a: IndexArgs)
    ensures
        a.name@ == name@,
        a.progs@ == imported@,
        a.summary@.len() == 0,
        a.models@ == args.models@,
        a.no_default_models == args.no_default_models,
        a.no_jni_bridge == args.no_jni_bridge,
        a.no_jni_registry == args.no_jni_registry,
        a.strategy == args.strategy,
        a.prune_unreachable_cfg_nodes is None,
        a.alias_rule is None,
        a.dump_index_graph == args.dump_index_graph,
{
    IndexArgs {
        name: String::from_str(name),
        progs: copied_texts(imported),
        summary: Vec::new(),
        models: copied_texts(&args.models),
        no_default_models: args.no_default_models,
        no_jni_bridge: args.no_jni_bridge,
        no_jni_registry: args.no_jni_registry,
        strategy: args.strategy,
        prune_unreachable_cfg_nodes: None,
        alias_rule: None,
        dump_index_graph: copied_text(&args.dump_index_graph),
    }
}

/// How a one-shot run queries the project `name`.
pub fn go_query_args(args: &GoArgs, name: &str) -> (a: QueryArgs)
    ensures
        a.name@ == name@,
        a.models@ == args.models@,
        a.output == args.output,
        a.sarif_profile == args.sarif_profile,
        a.dump_taint_graph == args.dump_taint_graph,
{
    QueryArgs {
        name: String::from_str(name),
        models: copied_texts(&args.models),
        output: args.output.clone(),
        sarif_profile: args.sarif_profile.clone(),
        dump_taint_graph: copied_text(&args.dump_taint_graph),
    }
}

/// How the legacy index command imports its facts.
pub fn legacy_import_args(args: &LegacyIndexArgs) -> (a: ImportArgs)
    ensures
        a.artifact == args.facts_path,
        a.name is Some,
        a.name->0@ == "legacy_pcode"@,
        a.language == ImportLanguage::Pcode,
        !a.skip_existing,
        !a.no_native_libs,
        a.native_abi is None,
{
    ImportArgs {
        artifact: args.facts_path.clone(),
        name: Some(String::from_str("legacy_pcode")),
        language: ImportLanguage::Pcode,
        skip_existing: false,
        no_native_libs: false,
        native_abi: None,
    }
}

/// How the legacy index command indexes what it imported.
pub fn legacy_index_args(models: &Vec<String>) -> (a: IndexArgs)
    ensures
        a.name@ == "legacy_pcode"@,
        a.progs@.len() == 1,
        a.progs@[0]@ == "legacy_pcode"@,
        a.summary@.len() == 0,
        a.models@ == models@,
        !a.no_default_models,
        !a.no_jni_bridge,
        !a.no_jni_registry,
        a.strategy == CallResolutionStrategy::Mixed,
        a.prune_unreachable_cfg_nodes is None,
        a.alias_rule is None,
        a.dump_index_graph is None,
{
    let mut progs: Vec<String> = Vec::new();
    progs.push(String::from_str("legacy_pcode"));
    IndexArgs {
        name: String::from_str("legacy_pcode"),
        progs,
        summary: Vec::new(),
        models: copied_texts(models),
        no_default_models: false,
        no_jni_bridge: false,
        no_jni_registry: false,
        strategy: CallResolutionStrategy::Mixed,
        prune_unreachable_cfg_nodes: None,
        alias_rule: None,
        dump_index_graph: None,
    }
}

/// How the legacy query command queries: the query file is one more model.
pub fn legacy_query_args(models: &Vec<String>, args: &LegacyQueryArgs) -> (a: QueryArgs)
    ensures
        a.name@ == "legacy_pcode"@,
        a.models@ == models@.push(args.query_file),
        a.output@ == "results.sarif"@,
        a.sarif_profile@ == "human"@,
        a.dump_taint_graph is None,
{
    let mut all = copied_texts(models);
    all.push(args.query_file.clone());
    QueryArgs {
        name: String::from_str("legacy_pcode"),
        models: all,
        output: String::from_str("results.sarif"),
        sarif_profile: String::from_str("human"),
        dump_taint_graph: None,
    }
}

/// The name of a direction.
pub open spec fn direction_name(d: LegacyTaintDirection) -> Seq<char> {
    match d {
        LegacyTaintDirection::All => "All"@,
        LegacyTaintDirection::Fwd => "Fwd"@,
        LegacyTaintDirection::Bwd => "Bwd"@,
    }
}

/// The warning that a legacy query gives for its direction.
pub open spec fn slices_warning(d: LegacyTaintDirection) -> Seq<char> {
    "--compute-slices "@ + direction_name(d)
        + " is currently ignored; the direction is controlled by the query file"@
}

/// The warnings a legacy query gives for the options it ignores.
pub open spec fn ignored_options(args: LegacyQueryArgs) -> Seq<Seq<char>> {
    let slices = match args.compute_slices {
        Some(d) => seq![slices_warning(d)],
        None => Seq::empty(),
    };
    if args.no_compile_analysis {
        slices.push("--no-compile-analysis is currently ignored"@)
    } else {
        slices
    }
}

/// The warnings a legacy query gives for the options it ignores.
pub fn legacy_warnings(args: &LegacyQueryArgs) -> (w: Vec<String>)
    ensures
        w@.map_values(|s: String| s@) == ignored_options(*args),
{
    let mut w: Vec<String> = Vec::new();
    if let Some(d) = args.compute_slices {
        let name = match d {
            LegacyTaintDirection::All => "All",
            LegacyTaintDirection::Fwd => "Fwd",
            LegacyTaintDirection::Bwd => "Bwd",
        };
        let mut message = joined("--compute-slices ", name);
        message.append(" is currently ignored; the direction is controlled by the query file");
        w.push(message);
    }
    if args.no_compile_analysis {
        w.push(String::from_str("--no-compile-analysis is currently ignored"));
    }
    assert(w@.map_values(|s: String| s@) =~= ignored_options(*args));
    w
}

} // verus!
