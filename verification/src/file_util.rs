//! A presenter file, read line by line: import statements first, then
//! markup.

use vstd::prelude::*;
use vstd::string::*;
use crate::error::Error;
use crate::presenter::{joined, trim_markup};
use crate::string_map::StringMap;
use crate::text::{
    chars_of, has_prefix, remove_word, split_words, starts_with, string_of, views, without_word,
    words,
};

verus! {

/// A presenter file, parted: its markup in one piece, and the import path
/// of each component that it names.
#[derive(Debug)]
pub struct ParsedFile {
    pub markup: String,
    pub imports: StringMap,
}

/// The component and the path that the import line `line` names: the two
/// words that are left once every `import` and every `from` is taken out of
/// it. `None` where something else is left.
pub open spec fn file_import_of(line: Seq<char>) -> Option<(Seq<char>, Seq<char>)> {
    let w = words(without_word(without_word(line, "import"@), "from"@));
    if w.len() == 2 {
        Some((w[0], w[1]))
    } else {
        None
    }
}

/// Where the reading of a file's lines stands.
pub enum Filed {
    /// The imports read, the lines of markup read, and whether markup has
    /// begun.
    Going { imports: Map<Seq<char>, Seq<char>>, markup: Seq<Seq<char>>, in_markup: bool },
    /// An import line was malformed; the message quotes it.
    Failed(Seq<char>),
}

/// The message of the error for the malformed import line `line`.
pub open spec fn file_import_message(line: Seq<char>) -> Seq<char> {
    "import format is wrong; make sure you are using default imports like this: `import Component from \"/path/to/component\"`. You provided: "@
        + line + "."@
}

/// The reading of the first `n` of `ls`. Until markup begins, a line that
/// starts with `import` is an import line; the first line that does not
/// begins the markup, and every line after it belongs to it.
pub open spec fn filed(ls: Seq<Seq<char>>, n: int) -> Filed
    decreases n,
{
    if n <= 0 {
        Filed::Going { imports: Map::empty(), markup: Seq::empty(), in_markup: false }
    } else {
        match filed(ls, n - 1) {
            Filed::Failed(message) => Filed::Failed(message),
            Filed::Going { imports, markup, in_markup } => {
                let line = ls[n - 1];
                if starts_with(line, "import"@) && !in_markup {
                    match file_import_of(line) {
                        Some((name, path)) => Filed::Going {
                            imports: imports.insert(name, path),
                            markup,
                            in_markup,
                        },
                        None => Filed::Failed(file_import_message(line)),
                    }
                } else {
                    Filed::Going { imports, markup: markup.push(line), in_markup: true }
                }
            },
        }
    }
}

/// Reads one import line into `imports`. A line that leaves anything but a
/// name and a path is a `ParsingError` and leaves `imports` as it was.
pub fn read_imports(line: String, imports: &mut StringMap) -> (res: Result<(), Error>)
    requires
        old(imports).wf(),
    ensures
        final(imports).wf(),
        match file_import_of(line@) {
            Some((name, path)) => res is Ok && final(imports)@ == old(imports)@.insert(name, path),
            None => res is Err && res->Err_0 is ParsingError && res->Err_0.message()
                == file_import_message(line@) && final(imports)@ == old(imports)@,
        },
{
    let chars = chars_of(line.as_str());
    let bare = remove_word(&remove_word(&chars, "import"), "from");
    let line_parts = split_words(&bare);
    if line_parts.len() != 2 {
        let mut msg = String::from_str(
            "import format is wrong; make sure you are using default imports like this: `import Component from \"/path/to/component\"`. You provided: ",
        );
        msg.append(line.as_str());
        msg.append(".");
        return Err(Error::ParsingError(msg));
    }
    let name = string_of(&line_parts[0], 0, line_parts[0].len());
    let path = string_of(&line_parts[1], 0, line_parts[1].len());
    let ghost bare_words = words(without_word(without_word(line@, "import"@), "from"@));
    assert(name@ =~= bare_words[0]);
    assert(path@ =~= bare_words[1]);
    imports.insert(name, path);
    Ok(())
}

/// Parts the lines of a presenter file into imports and markup. A malformed
/// import line is a `ParsingError`.
pub fn parse_lines(lines: Vec<String>) -> (res: Result<ParsedFile, Error>)
    ensures
        match filed(views(lines@), lines@.len() as int) {
            Filed::Failed(message) => res is Err && res->Err_0 is ParsingError
                && res->Err_0.message() == message,
            Filed::Going { imports, markup, in_markup } => {
                &&& res is Ok
                &&& res->Ok_0.imports.wf()
                &&& res->Ok_0.imports@ == imports
                &&& res->Ok_0.markup@ == joined(markup)
            },
        },
{
    let ghost ls = views(lines@);
    let mut in_markup = false;
    let mut imports = StringMap::new();
    let mut markup: Vec<String> = Vec::new();
    let mut i: usize = 0;
    assert(views(markup@) =~= Seq::<Seq<char>>::empty());
    while i < lines.len()
        invariant
            i <= lines.len(),
            ls == views(lines@),
            imports.wf(),
            filed(ls, i as int) == (Filed::Going {
                imports: imports@,
                markup: views(markup@),
                in_markup,
            }),
        decreases lines.len() - i,
    {
        let line = lines[i].clone();
        assert(ls[i as int] == line@);
        let ghost before = views(markup@);
        if !in_markup && has_prefix(&chars_of(line.as_str()), "import") {
            match read_imports(line, &mut imports) {
                Ok(()) => {},
                Err(e) => {
                    proof {
                        lemma_filed_failure_stays(ls, i + 1, ls.len() as int);
                    }
                    return Err(e);
                },
            }
        } else {
            in_markup = true;
            markup.push(line);
            assert(views(markup@) =~= before.push(ls[i as int]));
        }
        i += 1;
    }
    let markup = trim_markup(markup);
    Ok(ParsedFile { imports, markup })
}

/// Once an import line has failed, the reading of every longer list of
/// lines has failed alike.
pub proof fn lemma_filed_failure_stays(ls: Seq<Seq<char>>, n: int, m: int)
    requires
        n <= m,
        filed(ls, n) is Failed,
    ensures
        filed(ls, m) == filed(ls, n),
    decreases m - n,
{
    if n < m {
        lemma_filed_failure_stays(ls, n, m - 1);
    }
}

} // verus!
