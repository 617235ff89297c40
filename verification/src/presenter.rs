//! A presenter: import statements first, then markup. This module parts the
//! two.

use vstd::prelude::*;
use vstd::string::*;
use crate::const_util::{is_input_from_keyword, is_input_import_keyword};
use crate::error::{parsing_error, Error};
use crate::string_map::StringMap;
use crate::text::{
    chars_of, has_prefix, lines, remove_char, split_lines, split_words, starts_with, string_of,
    trim, trimmed, vec_views, views, without_char, words,
};

verus! {

/// A presenter, parted: its markup in one piece, and the import path of
/// each component that it names.
#[derive(Debug)]
pub struct ParsedPresenter {
    pub markup: String,
    pub imports: StringMap,
}

/// What a line is, read as an import statement.
pub enum ImportLine {
    /// A statement that names this component and this path.
    Names(Seq<char>, Seq<char>),
    /// Not of the form of an import statement.
    WrongFormat,
    /// A named import, which is not accepted.
    Named,
}

/// What `line` is, read as an import statement.
///
/// The statement has four words: `import`, the component, `from`, the path.
/// A component that starts with `{` or ends with `}` is a named import. The
/// path is taken without its `"` and `;`.
pub open spec fn import_of(line: Seq<char>) -> ImportLine {
    let w = words(line);
    if w.len() != 4 || w[0] != "import"@ || w[2] != "from"@ {
        ImportLine::WrongFormat
    } else if w[1].len() > 0 && (w[1][0] == '{' || w[1].last() == '}') {
        ImportLine::Named
    } else {
        ImportLine::Names(w[1], without_char(without_char(w[3], '"'), ';'))
    }
}

/// The message of the error for a line that names no import: one of the
/// wrong form is quoted in it.
pub open spec fn import_message(line: Seq<char>) -> Seq<char> {
    if import_of(line) is Named {
        "Import format is wrong; you are most likely using named imports while currently only default exports are supported."@
    } else {
        "Import format is wrong; make sure your import statement matches the following format: `import Component from \"/path/to/component\"`. You provided: "@
            + line + "."@
    }
}

/// The lines of `markup` that hold more than whitespace, joined with
/// nothing between them.
pub open spec fn joined(markup: Seq<Seq<char>>) -> Seq<char>
    decreases markup.len(),
{
    if markup.len() == 0 {
        Seq::empty()
    } else if trim(markup.last()).len() == 0 {
        joined(markup.drop_last())
    } else {
        joined(markup.drop_last()) + markup.last()
    }
}

/// Where the reading of a presenter stands.
pub enum Presented {
    /// The imports read, the lines of markup read, and whether markup has
    /// begun.
    Going { imports: Map<Seq<char>, Seq<char>>, markup: Seq<Seq<char>>, in_markup: bool },
    /// An import statement was malformed; the message says how.
    Failed(Seq<char>),
}

/// The reading of the first `n` of `ls`. Until markup begins, a line that
/// starts with `import` once trimmed is an import statement; the first line
/// that does not begins the markup, and every line after it belongs to it.
pub open spec fn presented(ls: Seq<Seq<char>>, n: int) -> Presented
    decreases n,
{
    if n <= 0 {
        Presented::Going { imports: Map::empty(), markup: Seq::empty(), in_markup: false }
    } else {
        match presented(ls, n - 1) {
            Presented::Failed(message) => Presented::Failed(message),
            Presented::Going { imports, markup, in_markup } => {
                let line = ls[n - 1];
                if starts_with(trim(line), "import"@) && !in_markup {
                    match import_of(line) {
                        ImportLine::Names(name, path) => Presented::Going {
                            imports: imports.insert(name, path),
                            markup,
                            in_markup,
                        },
                        _ => Presented::Failed(import_message(line)),
                    }
                } else {
                    Presented::Going { imports, markup: markup.push(line), in_markup: true }
                }
            },
        }
    }
}

/// Reads one import statement into `imports`. A line that is no import
/// statement is a `ParsingError` and leaves `imports` as it was.
pub fn read_imports(line: String, imports: &mut StringMap) -> (res: Result<(), Error>)
    requires
        old(imports).wf(),
    ensures
        final(imports).wf(),
        match import_of(line@) {
            ImportLine::Names(name, path) => res is Ok && final(imports)@ == old(imports)@.insert(
                name,
                path,
            ),
            _ => res is Err && res->Err_0 is ParsingError && res->Err_0.message()
                == import_message(line@) && final(imports)@ == old(imports)@,
        },
{
    let chars = chars_of(line.as_str());
    let line_parts = split_words(&chars);
    if line_parts.len() != 4 {
        return Err(wrong_import(&line));
    }
    let keyword = string_of(&line_parts[0], 0, line_parts[0].len());
    let from = string_of(&line_parts[2], 0, line_parts[2].len());
    assert(keyword@ =~= words(line@)[0]);
    assert(from@ =~= words(line@)[2]);
    if !is_input_import_keyword(keyword.as_str()) || !is_input_from_keyword(from.as_str()) {
        return Err(wrong_import(&line));
    }
    let name = &line_parts[1];
    if name.len() > 0 && (name[0] == '{' || name[name.len() - 1] == '}') {
        return Err(
            parsing_error(
                "Import format is wrong; you are most likely using named imports while currently only default exports are supported.",
            ),
        );
    }
    let component = string_of(name, 0, name.len());
    assert(component@ =~= words(line@)[1]);
    let bare = remove_char(&remove_char(&line_parts[3], '"'), ';');
    let path = string_of(&bare, 0, bare.len());
    assert(path@ =~= bare@);
    imports.insert(component, path);
    Ok(())
}

/// The error for a line that is not of the form of an import statement.
fn wrong_import(line: &String) -> (e: Error)
    ensures
        e is ParsingError,
        e.message()
            == "Import format is wrong; make sure your import statement matches the following format: `import Component from \"/path/to/component\"`. You provided: "@
            + line@ + "."@,
{
    let mut msg = String::from_str(
        "Import format is wrong; make sure your import statement matches the following format: `import Component from \"/path/to/component\"`. You provided: ",
    );
    msg.append(line.as_str());
    msg.append(".");
    Error::ParsingError(msg)
}

/// Joins the lines that hold more than whitespace, with nothing between
/// them.
pub fn trim_markup(markup: Vec<String>) -> (res: String)
    ensures
        res@ == joined(views(markup@)),
{
    let mut res = String::new();
    let mut i: usize = 0;
    assert(views(markup@).subrange(0, 0) =~= Seq::<Seq<char>>::empty());
    while i < markup.len()
        invariant
            i <= markup.len(),
            res@ == joined(views(markup@).subrange(0, i as int)),
        decreases markup.len() - i,
    {
        let line = &markup[i];
        proof {
            let now = views(markup@).subrange(0, i + 1);
            assert(now.drop_last() =~= views(markup@).subrange(0, i as int));
            assert(now.last() == line@);
        }
        if trimmed(&chars_of(line.as_str())).len() != 0 {
            res.append(line.as_str());
        }
        i += 1;
    }
    assert(views(markup@) =~= views(markup@).subrange(0, markup@.len() as int));
    res
}

/// Parts a presenter into its imports and its markup. The presenter is
/// trimmed and read line by line; a malformed import statement is a
/// `ParsingError`.
pub fn parse_presenter(presenter: &String) -> (res: Result<ParsedPresenter, Error>)
    ensures
        match presented(lines(trim(presenter@)), lines(trim(presenter@)).len() as int) {
            Presented::Failed(message) => res is Err && res->Err_0 is ParsingError
                && res->Err_0.message() == message,
            Presented::Going { imports, markup, in_markup } => {
                &&& res is Ok
                &&& res->Ok_0.imports.wf()
                &&& res->Ok_0.imports@ == imports
                &&& res->Ok_0.markup@ == joined(markup)
            },
        },
{
    let chars = chars_of(presenter.as_str());
    let body = trimmed(&chars);
    let split_presenter = split_lines(&body);
    let ghost ls = lines(trim(presenter@));
    assert(vec_views(split_presenter@) =~= ls);
    let mut in_markup = false;
    let mut imports = StringMap::new();
    let mut markup: Vec<String> = Vec::new();
    let mut i: usize = 0;
    assert(views(markup@) =~= Seq::<Seq<char>>::empty());
    while i < split_presenter.len()
        invariant
            i <= split_presenter.len(),
            vec_views(split_presenter@) == ls,
            ls == lines(trim(presenter@)),
            imports.wf(),
            presented(ls, i as int) == (Presented::Going {
                imports: imports@,
                markup: views(markup@),
                in_markup,
            }),
        decreases split_presenter.len() - i,
    {
        let line = &split_presenter[i];
        assert(ls[i as int] == line@);
        let ghost before = views(markup@);
        let text = string_of(line, 0, line.len());
        assert(text@ =~= line@);
        if !in_markup && has_prefix(&trimmed(line), "import") {
            match read_imports(text, &mut imports) {
                Ok(()) => {},
                Err(e) => {
                    proof {
                        lemma_presented_failure_stays(ls, i + 1, ls.len() as int);
                    }
                    return Err(e);
                },
            }
        } else {
            in_markup = true;
            markup.push(text);
            assert(views(markup@) =~= before.push(line@));
        }
        i += 1;
    }
    let markup = trim_markup(markup);
    Ok(ParsedPresenter { imports, markup })
}

/// Once an import statement has failed, the reading of every longer list of
/// lines has failed alike.
pub proof fn lemma_presented_failure_stays(ls: Seq<Seq<char>>, n: int, m: int)
    requires
        n <= m,
        presented(ls, n) is Failed,
    ensures
        presented(ls, m) == presented(ls, n),
    decreases m - n,
{
    if n < m {
        lemma_presented_failure_stays(ls, n, m - 1);
    }
}

} // verus!
