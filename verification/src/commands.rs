//! What the commands do.
//!
//! The laws below say how the language of an artifact is found, in which order an import goes, and what
//! a query and an inspection answer.

use vstd::prelude::*;
use crate::cli::{detected_language, effective_progs, extension_language, import_follows, inspection, on_by_default, query_result, ArtifactFacts, ImportEvent, ImportLanguage, ImportStep, IndexArgs, InspectArgs, InspectedPath, Inspection, QueryArgs, QueryStatus, StoreFiles};
use crate::error::ErrorView;
use crate::sources::sources;

verus! {

// Languages

/// Whether an extension is one that stands for a language.
pub open spec fn telling(e: Seq<char>) -> bool {
    ||| e == "dex"@
    ||| e == "apk"@
    ||| e == "xapk"@
    ||| e == "class"@
    ||| e == "jar"@
    ||| e == "lua"@
    ||| e == "tnt"@
    ||| e == "gpr"@
    ||| e == "c"@
    ||| e == "h"@
}

proof fn lemma_extensions_differ()
    ensures
        "dex"@ != "apk"@,
        "dex"@ != "jar"@,
        "dex"@ != "lua"@,
        "dex"@ != "tnt"@,
        "dex"@ != "gpr"@,
        "apk"@ != "jar"@,
        "apk"@ != "lua"@,
        "apk"@ != "tnt"@,
        "apk"@ != "gpr"@,
        "jar"@ != "lua"@,
        "jar"@ != "tnt"@,
        "jar"@ != "gpr"@,
        "lua"@ != "tnt"@,
        "lua"@ != "gpr"@,
        "tnt"@ != "gpr"@,
        "dex"@.len() == 3,
        "apk"@.len() == 3,
        "jar"@.len() == 3,
        "lua"@.len() == 3,
        "tnt"@.len() == 3,
        "gpr"@.len() == 3,
        "xapk"@.len() == 4,
        "class"@.len() == 5,
        "c"@.len() == 1,
        "h"@.len() == 1,
{
    reveal_strlit("dex");
    reveal_strlit("apk");
    reveal_strlit("xapk");
    reveal_strlit("class");
    reveal_strlit("jar");
    reveal_strlit("lua");
    reveal_strlit("tnt");
    reveal_strlit("gpr");
    reveal_strlit("c");
    reveal_strlit("h");
    assert("dex"@[0] == 'd' && "apk"@[0] == 'a' && "jar"@[0] == 'j' && "lua"@[0] == 'l' && "tnt"@[0]
        == 't' && "gpr"@[0] == 'g');
}

/// A file is what its extension says, where the command does not name a language and the artifact is
/// neither a server nor a tree of Lua files.
pub proof fn a_file_is_what_its_extension_says(facts: ArtifactFacts, e: Seq<char>)
    requires
        !facts.ghidra_server_url,
        !(facts.is_dir && facts.contains_lua),
        facts.extension matches Some(x) && x@ == e,
    ensures
        ({
            let l = detected_language(facts, ImportLanguage::Auto);
            &&& e == "dex"@ ==> l == Ok::<_, ErrorView>(ImportLanguage::Dex)
            &&& e == "apk"@ ==> l == Ok::<_, ErrorView>(ImportLanguage::Apk)
            &&& e == "xapk"@ ==> l == Ok::<_, ErrorView>(ImportLanguage::Xapk)
            &&& e == "class"@ ==> l == Ok::<_, ErrorView>(ImportLanguage::Jvm)
            &&& e == "jar"@ ==> l == Ok::<_, ErrorView>(ImportLanguage::Jar)
            &&& e == "lua"@ ==> l == Ok::<_, ErrorView>(ImportLanguage::Lua)
            &&& e == "tnt"@ ==> l == Ok::<_, ErrorView>(ImportLanguage::Flowy)
            &&& e == "gpr"@ ==> l == Ok::<_, ErrorView>(ImportLanguage::Pcode)
            &&& e == "c"@ || e == "h"@ ==> l == Ok::<_, ErrorView>(ImportLanguage::C)
        }),
{
    lemma_extensions_differ();
}

/// An artifact whose name does not tell what it is: a directory is C, a binary file is Pcode, and any
/// other file is refused. A server is Pcode, and a tree with Lua files Lua, whatever the name.
pub proof fn an_artifact_without_a_telling_name(facts: ArtifactFacts)
    ensures
        ({
            let l = detected_language(facts, ImportLanguage::Auto);
            let told = facts.extension matches Some(x) && telling(x@);
            &&& facts.ghidra_server_url ==> l == Ok::<_, ErrorView>(ImportLanguage::Pcode)
            &&& !facts.ghidra_server_url && facts.is_dir && facts.contains_lua ==> l == Ok::<
                _,
                ErrorView,
            >(ImportLanguage::Lua)
            &&& !facts.ghidra_server_url && !told && facts.is_dir && !facts.contains_lua ==> l
                == Ok::<_, ErrorView>(ImportLanguage::C)
            &&& !facts.ghidra_server_url && !told && !facts.is_dir && facts.looks_binary ==> l
                == Ok::<_, ErrorView>(ImportLanguage::Pcode)
            &&& !facts.ghidra_server_url && !told && !facts.is_dir && !facts.looks_binary
                ==> l is Err
            &&& l is Err ==> !facts.ghidra_server_url && !told && !facts.is_dir
                && !facts.looks_binary
        }),
{
    if let Some(x) = facts.extension {
        assert(extension_language(x@) is Some <==> telling(x@));
    }
}

// Imports

/// An import is only looked up where skipping is allowed, and one that is up to date is all there is to
/// do. Any other is created, translated and loaded back, and its hash is recorded unless it is remote.
pub proof fn an_import_goes_in_order(skip: bool, up_to_date: bool, remote: bool)
    ensures
        import_follows(skip, ImportEvent::Started) == ImportStep::CheckUpToDate <==> skip,
        !skip ==> import_follows(skip, ImportEvent::Started) == ImportStep::Create,
        import_follows(skip, ImportEvent::Checked(up_to_date)) == ImportStep::Finish <==> up_to_date,
        !up_to_date ==> import_follows(skip, ImportEvent::Checked(up_to_date)) == ImportStep::Create,
        import_follows(skip, ImportEvent::Created) == ImportStep::Translate,
        import_follows(skip, ImportEvent::Translated) == ImportStep::Reload,
        import_follows(skip, ImportEvent::Reloaded(remote)) == ImportStep::Finish <==> remote,
        !remote ==> import_follows(skip, ImportEvent::Reloaded(remote)) == ImportStep::RecordHash,
        import_follows(skip, ImportEvent::HashRecorded) == ImportStep::Finish,
{
}

/// A project takes the imports that the command names, or else the one of its own name; there is always
/// one.
pub proof fn a_project_has_an_import(args: IndexArgs)
    ensures
        effective_progs(args).len() > 0,
        args.progs@.len() > 0 ==> effective_progs(args) == args.progs@,
        args.progs@.len() == 0 ==> effective_progs(args).len() == 1 && effective_progs(args)[0]
            == args.name,
{
}

/// An option that is on by default is off only if it is turned off.
pub proof fn an_option_is_off_only_if_turned_off(b: bool)
    ensures
        on_by_default(None),
        on_by_default(Some(b)) == b,
{
}

/// A directory is read from the C files that were found in it, all of them and in order, and refused if
/// there are none; a file is read itself.
pub proof fn a_directory_is_read_from_its_files(path: Seq<char>, is_dir: bool, found: Seq<Seq<char>>)
    ensures
        !is_dir ==> sources(path, is_dir, found) == Ok::<_, ErrorView>(seq![path]),
        is_dir && found.len() > 0 ==> sources(path, is_dir, found) == Ok::<_, ErrorView>(found),
        sources(path, is_dir, found) is Err <==> is_dir && found.len() == 0,
{
}

// Answers

/// A query fails exactly if it was not executed successfully, and says in which file to look.
pub proof fn a_query_fails_if_it_was_not_executed(args: QueryArgs, status: QueryStatus)
    ensures
        query_result(args, status) is Ok <==> status.execution_successful,
        query_result(args, status) matches Err(e) ==> exists|a: Seq<char>, b: Seq<char>|
            e == ErrorView::Failed(#[trigger] (a + args.output@ + b)),
{
    if !status.execution_successful {
        if status.model_check_only {
            let a = "no index, so only the model files were checked; see '"@;
            let b = "' for what they match, then run `ctadl index "@ + args.name@ + "`"@;
            assert(a + args.output@ + b =~= a + args.output@
                + "' for what they match, then run `ctadl index "@ + args.name@ + "`"@);
        } else {
            let a = "query produced no analyzable endpoints; see '"@;
            let b = "' for details"@;
            assert(query_result(args, status) == Err::<(), ErrorView>(
                ErrorView::Failed(a + args.output@ + b),
            ));
        }
    }
}

/// Without a name an inspection shows the store, or is refused if it is the IR that is asked for. With
/// one, a stored file is shown as what it is; and else the IR if that is asked for, or a summary.
pub proof fn an_inspection_shows_what_it_is_given(
    args: InspectArgs,
    path: InspectedPath,
    files: StoreFiles,
)
    ensures
        ({
            let r = inspection(args, path, files);
            let parquet = path.extension matches Some(x) && x@ == "parquet"@;
            let bitcode = path.file_name matches Some(x) && (x@ == files.program_bitcode@ || x@
                == files.vmt_bitcode@);
            let registry = path.file_name matches Some(x) && x@ == files.jni_registry@;
            &&& r is Err <==> args.name is None && args.dump_ir
            &&& args.name is None && !args.dump_ir ==> r == Ok::<_, ErrorView>(Inspection::Store)
            &&& args.name is Some && path.stored_file && parquet ==> r == Ok::<_, ErrorView>(
                Inspection::Parquet,
            )
            &&& args.name is Some && path.stored_file && !parquet && bitcode ==> r == Ok::<
                _,
                ErrorView,
            >(Inspection::Bitcode)
            &&& args.name is Some && path.stored_file && !parquet && !bitcode && registry ==> r
                == Ok::<_, ErrorView>(Inspection::JniRegistry)
            &&& args.name is Some && (!path.stored_file || (!parquet && !bitcode && !registry)) ==> r
                == Ok::<_, ErrorView>(
                if args.dump_ir {
                    Inspection::Ir
                } else {
                    Inspection::Summary
                },
            )
        }),
{
}

} // verus!
