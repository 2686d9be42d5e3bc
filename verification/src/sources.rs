//! Which files a C import reads, and what is said when there is nothing to read or not all of it
//! could be.

use vstd::prelude::*;
use crate::collections::views;
use crate::error::{Error, ErrorView};
use crate::text::same;

verus! {

broadcast use crate::collections::group_views;

/// Whether a file with this extension is C source.
pub open spec fn c_extension(extension: Option<Seq<char>>) -> bool {
    extension == Some("c"@) || extension == Some("h"@)
}

/// Whether a file with this extension is C source: `.c` and `.h` files are, any other file is
/// ignored.
pub fn is_c_file(extension: Option<&str>) -> (b: bool)
    ensures
        b == c_extension(match extension {
            Some(e) => Some(e@),
            None => None,
        }),
{
    match extension {
        Some(e) => same(e, "c") || same(e, "h"),
        None => false,
    }
}

/// The files to read for an import of `path`: the C files found under it if it is a directory, of
/// which there is at least one, or else the file itself.
pub open spec fn sources(path: Seq<char>, is_dir: bool, found: Seq<Seq<char>>) -> Result<
    Seq<Seq<char>>,
    ErrorView,
> {
    if !is_dir {
        Ok(seq![path])
    } else if found.len() == 0 {
        Err(ErrorView::Path("no .c or .h files found under '"@ + path + "'"@))
    } else {
        Ok(found)
    }
}

/// The files to read for an import of `path`. `found` are the C files under it, in the order they
/// are to be read in.
pub fn source_files(path: &str, is_dir: bool, found: Vec<String>) -> (r: Result<Vec<String>, Error>)
    ensures
        match r {
            Ok(files) => sources(path@, is_dir, views(found@)) == Ok::<_, ErrorView>(views(files@)),
            Err(e) => sources(path@, is_dir, views(found@)) == Err::<Seq<Seq<char>>, _>(e@),
        },
{
    if !is_dir {
        let mut files: Vec<String> = Vec::new();
        files.push(String::from_str(path));
        assert(views(files@) =~= seq![path@]);
        Ok(files)
    } else if found.len() == 0 {
        let mut message = String::from_str("no .c or .h files found under '");
        message.append(path);
        message.append("'");
        Err(Error::Path { message })
    } else {
        Ok(found)
    }
}

/// What is said when an import had syntax errors.
pub fn syntax_error_warning(path: &str) -> (s: String)
    ensures
        s@ == "tree-sitter reported syntax errors while parsing C source at '"@ + path@
            + "'; the imported IR may be incomplete (is the input already preprocessed?)"@,
{
    let mut s = String::from_str("tree-sitter reported syntax errors while parsing C source at '");
    s.append(path);
    s.append("'; the imported IR may be incomplete (is the input already preprocessed?)");
    s
}

} // verus!
