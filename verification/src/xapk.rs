//! App bundles (`.xapk`): a ZIP of split APKs.
//!
//! An Android App Bundle is a base APK holding the Dex, a `config.<abi>.apk` holding that ABI's
//! native libraries, and one resource-only split per language and screen density. Importing one
//! is extracting each split, importing each through the ordinary APK path, and recording the
//! result on the parent.
//!
//! Two things are easy to get wrong. The sub-import list is **flat**: for each split, its own name
//! followed by its own sub-imports, because a project expands exactly one level. And a
//! resource-only split is **skipped, not fatal**.

use vstd::prelude::*;
use crate::cli::{import_follows, ImportEvent, ImportOptions, ImportStep};
use crate::error::{Error, ErrorView};
use crate::text::{chars_of, joined};

verus! {

/// What an import of an artifact is known by.
#[derive(Debug)]
pub struct ArtifactImport {
    pub name: String,
    /// The directory of the import in the store.
    pub import_path: String,
    /// The artifact that was imported.
    pub artifact_path: String,
    /// The imports that belong to this one.
    pub sub_imports: Vec<String>,
}

/// `leaf` in the directory `dir`.
pub open spec fn path_in(dir: Seq<char>, leaf: Seq<char>) -> Seq<char> {
    if dir.len() == 0 || dir.last() == '/' {
        dir + leaf
    } else {
        dir.push('/') + leaf
    }
}

/// `leaf` in the directory `dir`.
pub fn join_path(dir: &str, leaf: &str) -> (p: String)
    ensures
        p@ == path_in(dir@, leaf@),
{
    let chars = chars_of(dir);
    let mut p = String::from_str(dir);
    if chars.len() != 0 && chars[chars.len() - 1] != '/' {
        p.push('/');
    }
    p.append(leaf);
    p
}

/// Where a bundle import stashes the splits it extracted.
pub fn splits_dir(parent: &ArtifactImport) -> (dir: String)
    ensures
        dir@ == path_in(parent.import_path@, "splits"@),
{
    join_path(parent.import_path.as_str(), "splits")
}

/// Whether `c` may stand in a directory name as it is.
pub open spec fn name_char(c: char) -> bool {
    ||| '0' <= c && c <= '9'
    ||| 'A' <= c && c <= 'Z'
    ||| 'a' <= c && c <= 'z'
    ||| c == '.'
    ||| c == '_'
    ||| c == '-'
}

/// `raw` with `_` for every character that has no business in a directory name.
pub open spec fn sanitized(raw: Seq<char>) -> Seq<char> {
    raw.map_values(
        |c: char|
            if name_char(c) {
                c
            } else {
                '_'
            },
    )
}

/// Replaces every character that has no business in a directory name.
pub fn sanitize(raw: &str) -> (name: String)
    ensures
        name@ == sanitized(raw@),
{
    let chars = chars_of(raw);
    let mut name = String::new();
    let mut i: usize = 0;
    while i < chars.len()
        invariant
            i <= chars@.len(),
            chars@ == raw@,
            name@ == sanitized(raw@).take(i as int),
        decreases chars@.len() - i,
    {
        let c = chars[i];
        if ('0' <= c && c <= '9') || ('A' <= c && c <= 'Z') || ('a' <= c && c <= 'z') || c == '.'
            || c == '_' || c == '-' {
            name.push(c);
        } else {
            name.push('_');
        }
        i = i + 1;
        assert(name@ =~= sanitized(raw@).take(i as int));
    }
    assert(name@ =~= sanitized(raw@));
    name
}

/// A sanitized name is what it was made for: every character of it may stand in a directory name,
/// so none is a path separator, and sanitizing it again changes nothing.
pub proof fn a_sanitized_name_cannot_leave_its_directory(raw: Seq<char>)
    ensures
        sanitized(raw).len() == raw.len(),
        forall|i: int| 0 <= i < raw.len() ==> name_char(#[trigger] sanitized(raw)[i]),
        !sanitized(raw).contains('/'),
        !sanitized(raw).contains('\\'),
        sanitized(sanitized(raw)) == sanitized(raw),
{
    assert forall|i: int| 0 <= i < raw.len() implies name_char(#[trigger] sanitized(raw)[i]) by {}
    assert(sanitized(sanitized(raw)) =~= sanitized(raw));
}

/// The sub-import name for one split: `<parent>__<stem>`, sanitized. The parent's name is the
/// prefix because a split's own name is not unique.
pub open spec fn sub_name(parent: Seq<char>, stem: Seq<char>) -> Seq<char> {
    sanitized(parent + "__"@ + stem)
}

/// The sub-import name for one split: `<parent>__<stem>`.
pub fn sub_import_name(parent: &str, stem: &str) -> (name: String)
    ensures
        name@ == sub_name(parent@, stem@),
{
    let prefix = joined(parent, "__");
    sanitize(joined(prefix.as_str(), stem).as_str())
}

/// The name of the file a split is extracted to: built from the stem, never from the raw entry
/// name.
pub open spec fn split_file(stem: Seq<char>) -> Seq<char> {
    sanitized(stem) + ".apk"@
}

/// Where a split is extracted to is directly in the splits directory, whatever the bundle calls
/// it.
pub proof fn a_split_is_written_inside_the_splits_dir(stem: Seq<char>)
    ensures
        !split_file(stem).contains('/'),
        !split_file(stem).contains('\\'),
{
    reveal_strlit(".apk");
    a_sanitized_name_cannot_leave_its_directory(stem);
    assert forall|i: int| 0 <= i < split_file(stem).len() implies split_file(stem)[i] != '/'
        && split_file(stem)[i] != '\\' by {
        if i < sanitized(stem).len() {
            assert(split_file(stem)[i] == sanitized(stem)[i]);
            assert(sanitized(stem).contains(sanitized(stem)[i]));
        }
    }
}

/// One split APK of a bundle, as the archive lists it.
#[derive(Debug)]
pub struct SplitApkEntry {
    /// The entry's name in the archive.
    pub entry_name: String,
    /// The entry's name without its directory and extension.
    pub stem: String,
}

/// One split to extract and import.
#[derive(Debug)]
pub struct Split {
    /// Sub-import name: `<parent>__<stem>`.
    pub name: String,
    /// Where it is extracted to, under the parent's splits directory.
    pub path: String,
    pub has_dex: bool,
}

/// The message for an archive that holds no splits.
pub open spec fn not_a_bundle(bundle: Seq<char>) -> Seq<char> {
    "'"@ + bundle
        + "' has no top-level *.apk entries, so it is not an app bundle. An .xapk is a ZIP of split APKs; if this is a plain APK, rename it or pass `--language apk`."@
}

/// Checks that the bundle at `bundle` lists `entries` splits, at least one.
///
/// # Errors
///
/// `NothingToImport` when there is none.
pub fn require_splits(bundle: &str, entries: usize) -> (r: Result<(), Error>)
    ensures
        r is Ok <==> entries > 0,
        r matches Err(e) ==> e@ == ErrorView::NothingToImport(not_a_bundle(bundle@)),
{
    if entries > 0 {
        Ok(())
    } else {
        let mut message = joined("'", bundle);
        message.append(
            "' has no top-level *.apk entries, so it is not an app bundle. An .xapk is a ZIP of split APKs; if this is a plain APK, rename it or pass `--language apk`.",
        );
        Err(Error::NothingToImport { message })
    }
}

/// Where the split `entry` is extracted to.
pub fn split_destination(parent: &ArtifactImport, entry: &SplitApkEntry) -> (dest: String)
    ensures
        dest@ == path_in(path_in(parent.import_path@, "splits"@), split_file(entry.stem@)),
{
    let file = joined(sanitize(entry.stem.as_str()).as_str(), ".apk");
    join_path(splits_dir(parent).as_str(), file.as_str())
}

/// The split `entry`, extracted to `dest`, of which it is known by now whether it holds Dex.
pub fn extracted_split(
    parent: &ArtifactImport,
    entry: &SplitApkEntry,
    dest: String,
    has_dex: bool,
) -> (s: Split)
    ensures
        s.name@ == sub_name(parent.name@, entry.stem@),
        s.path == dest,
        s.has_dex == has_dex,
{
    Split {
        name: sub_import_name(parent.name.as_str(), entry.stem.as_str()),
        path: dest,
        has_dex,
    }
}

/// `splits` with the Dex-bearing ones first, each group in the order it had.
pub open spec fn dex_first(splits: Seq<Split>) -> Seq<Split> {
    splits.filter(|s: Split| s.has_dex) + splits.filter(|s: Split| !s.has_dex)
}

/// Puts the Dex-bearing splits first, so that the Java half of a JNI boundary is observed before
/// the native half. The order the splits had decides within each group.
pub fn order_splits(splits: &mut Vec<Split>)
    ensures
        final(splits)@ == dex_first(old(splits)@),
{
    let ghost all = splits@;
    let ghost yes = |s: Split| s.has_dex;
    let ghost no = |s: Split| !s.has_dex;
    let mut dex: Vec<Split> = Vec::new();
    let mut rest: Vec<Split> = Vec::new();
    assert(all.take(0) =~= Seq::empty());
    assert(all.skip(0) =~= all);
    proof {
        reveal(Seq::filter);
    }
    let ghost mut done: int = 0;
    while splits.len() > 0
        invariant
            yes == (|s: Split| s.has_dex),
            no == (|s: Split| !s.has_dex),
            0 <= done <= all.len(),
            splits@ == all.skip(done),
            dex@ == all.take(done).filter(yes),
            rest@ == all.take(done).filter(no),
        decreases splits@.len(),
    {
        let s = splits.remove(0);
        proof {
            reveal(Seq::filter);
            assert(s == all[done]);
            assert(all.take(done + 1).drop_last() =~= all.take(done));
            assert(all.take(done + 1).last() == s);
            assert(splits@ =~= all.skip(done + 1));
            done = done + 1;
        }
        if s.has_dex {
            dex.push(s);
        } else {
            rest.push(s);
        }
    }
    assert(all.take(done) =~= all);
    dex.append(&mut rest);
    *splits = dex;
}

/// What to do next in the import of an extracted split. A split is a file, so it can always be
/// hashed; whether an import of it is up to date is only asked where the options allow skipping.
pub fn split_step(options: &ImportOptions, event: ImportEvent) -> (step: ImportStep)
    ensures
        step == import_follows(
            options.skip_existing,
            match event {
                ImportEvent::Reloaded(_) => ImportEvent::Reloaded(false),
                _ => event,
            },
        ),
{
    match event {
        ImportEvent::Started => if options.skip_existing {
            ImportStep::CheckUpToDate
        } else {
            ImportStep::Create
        },
        ImportEvent::Checked(up_to_date) => if up_to_date {
            ImportStep::Finish
        } else {
            ImportStep::Create
        },
        ImportEvent::Created => ImportStep::Translate,
        ImportEvent::Translated => ImportStep::Reload,
        ImportEvent::Reloaded(_) => ImportStep::RecordHash,
        ImportEvent::HashRecorded => ImportStep::Finish,
    }
}

/// Whether `e` is, or wraps, the error for an artifact that holds no code.
pub open spec fn no_code(e: ErrorView) -> bool
    decreases e,
{
    match e {
        ErrorView::NothingToImport(_) => true,
        ErrorView::Context(_, Some(source)) => no_code(*source),
        _ => false,
    }
}

/// True when `e` is, or wraps, [`Error::NothingToImport`]: a split with neither Dex nor native
/// libraries, which is the ordinary majority case for a bundle rather than a failure.
pub fn is_nothing_to_import(e: &Error) -> (b: bool)
    ensures
        b == no_code(e@),
    decreases e,
{
    match e {
        Error::NothingToImport { .. } => true,
        Error::Context { source, .. } => match source {
            Some(s) => is_nothing_to_import(s),
            None => false,
        },
        _ => false,
    }
}

/// An import of a bundle's splits in progress: what is to be recorded on the parent so far.
#[derive(Debug)]
pub struct BundleImport {
    /// The names of the splits that were imported, each followed by those of its sub-imports.
    pub names: Vec<String>,
    /// How many splits held no code.
    pub skipped: usize,
}

/// What to do after the import of a split.
#[derive(Debug, Clone, Copy, PartialEq, Eq, Structural)]
pub enum AfterSplit {
    /// The split is in; go on with the next.
    Keep,
    /// The split held no code: remove the directory its import created, and go on with the next.
    Discard,
}

/// What a bundle import records of one split, given how its import went; `None` where it fails.
pub open spec fn recorded(
    name: Seq<char>,
    outcome: Result<Seq<Seq<char>>, ErrorView>,
) -> Option<Seq<Seq<char>>> {
    match outcome {
        Ok(subs) => Some(seq![name] + subs),
        Err(e) => if no_code(e) {
            Some(Seq::empty())
        } else {
            None
        },
    }
}

/// The texts of some strings.
pub open spec fn texts(v: Seq<String>) -> Seq<Seq<char>> {
    v.map_values(|s: String| s@)
}

/// How the import of a split went.
pub open spec fn outcome_view(o: Result<Vec<String>, Error>) -> Result<Seq<Seq<char>>, ErrorView> {
    match o {
        Ok(v) => Ok(texts(v@)),
        Err(e) => Err(e@),
    }
}

impl BundleImport {
    /// No split has been imported yet.
    pub fn new() -> (b: BundleImport)
        ensures
            texts(b.names@) == Seq::<Seq<char>>::empty(),
            b.skipped == 0,
    {
        let b = BundleImport { names: Vec::new(), skipped: 0 };
        assert(texts(b.names@) =~= Seq::<Seq<char>>::empty());
        b
    }

    /// Records how the import of the split `name` went. `outcome` holds the split's own
    /// sub-imports; they follow its name, so that the list stays flat.
    ///
    /// # Errors
    ///
    /// The error of the split's import, unless it is that the split holds no code.
    pub fn record(&mut self, name: &str, outcome: Result<Vec<String>, Error>) -> (r: Result<
        AfterSplit,
        Error,
    >)
        requires
            old(self).skipped < usize::MAX,
        ensures
            match recorded(name@, outcome_view(outcome)) {
                Some(added) => {
                    &&& r is Ok
                    &&& texts(final(self).names@) == texts(old(self).names@) + added
                    &&& r->Ok_0 == (if outcome is Ok {
                        AfterSplit::Keep
                    } else {
                        AfterSplit::Discard
                    })
                    &&& final(self).skipped == old(self).skipped + (if outcome is Ok {
                        0int
                    } else {
                        1int
                    })
                },
                None => r is Err && r->Err_0 == outcome->Err_0 && *final(self) == *old(self),
            },
    {
        match outcome {
            Ok(mut sub_imports) => {
                let ghost subs = sub_imports@;
                self.names.push(String::from_str(name));
                self.names.append(&mut sub_imports);
                assert(texts(self.names@) =~= texts(old(self).names@) + (seq![name@] + texts(subs)));
                Ok(AfterSplit::Keep)
            },
            Err(e) => if is_nothing_to_import(&e) {
                self.skipped = self.skipped + 1;
                assert(texts(self.names@) =~= texts(old(self).names@) + Seq::<Seq<char>>::empty());
                Ok(AfterSplit::Discard)
            } else {
                Err(e)
            },
        }
    }
}

/// What is recorded of a whole bundle: each split that was imported, followed by its own
/// sub-imports, in order; `None` from the first split on whose import fails for good.
pub open spec fn flat_names(
    splits: Seq<(Seq<char>, Result<Seq<Seq<char>>, ErrorView>)>,
) -> Option<Seq<Seq<char>>>
    decreases splits.len(),
{
    if splits.len() == 0 {
        Some(Seq::empty())
    } else {
        match (flat_names(splits.drop_last()), recorded(splits.last().0, splits.last().1)) {
            (Some(before), Some(added)) => Some(before + added),
            _ => None,
        }
    }
}

/// Nothing is lost in flattening: every split that was imported is recorded, and so is every
/// sub-import of it.
pub proof fn every_import_of_a_bundle_is_recorded(
    splits: Seq<(Seq<char>, Result<Seq<Seq<char>>, ErrorView>)>,
    i: int,
)
    requires
        flat_names(splits) is Some,
        0 <= i < splits.len(),
        splits[i].1 is Ok,
    ensures
        flat_names(splits)->0.contains(splits[i].0),
        forall|k: int| 0 <= k < splits[i].1->Ok_0.len() ==> flat_names(splits)->0.contains(
            #[trigger] splits[i].1->Ok_0[k],
        ),
    decreases splits.len(),
{
    let before = flat_names(splits.drop_last())->0;
    let added = recorded(splits.last().0, splits.last().1)->0;
    let all = flat_names(splits)->0;
    if i == splits.len() - 1 {
        assert(all[before.len() as int] == splits[i].0);
        assert forall|k: int| 0 <= k < splits[i].1->Ok_0.len() implies all.contains(
            #[trigger] splits[i].1->Ok_0[k],
        ) by {
            assert(all[before.len() + 1 + k] == splits[i].1->Ok_0[k]);
        }
    } else {
        every_import_of_a_bundle_is_recorded(splits.drop_last(), i);
        assert(splits.drop_last()[i] == splits[i]);
        assert forall|x: Seq<char>| before.contains(x) implies all.contains(x) by {
            let j = choose|j: int| 0 <= j < before.len() && before[j] == x;
            assert(all[j] == x);
        }
    }
}

} // verus!
