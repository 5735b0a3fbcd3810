//! Editing the index of a folder of translations: the text of the index file with a language
//! put in or taken out.

use crate::text::{
    chars_of, contains_chars, contains_seq, find_char_from, find_chars, find_last_chars,
    first_occurrence, insert_chars, inserted_at, last_occurrence, next_char, occurs_at,
    replace_all_chars, replaced, split_chars, split_on, string_of, trim_chars, trimmed, views,
};
use vstd::prelude::*;

verus! {

/// The line that imports the translations of a language.
pub open spec fn import_line(lang: Seq<char>) -> Seq<char> {
    "import "@ + lang + " from './locales/"@ + lang + ".json';\n"@
}

/// The text by which an import of a language is known.
pub open spec fn import_mark(lang: Seq<char>) -> Seq<char> {
    "import "@ + lang + " from"@
}

/// The line that lists a language among the resources.
pub open spec fn resource_line(lang: Seq<char>) -> Seq<char> {
    "  "@ + lang + ": { translation: "@ + lang + " },\n"@
}

/// The text by which the resource entry of a language is known.
pub open spec fn resource_mark(lang: Seq<char>) -> Seq<char> {
    lang + ": { translation:"@
}

/// An index with the import of a language. An index that imports the language is left alone.
/// Else the import goes on the line after the last import, where that line ends; to the front
/// where the index imports nothing; and nowhere where the last import is on the last line and
/// that line does not end.
pub open spec fn with_import(content: Seq<char>, lang: Seq<char>) -> Seq<char> {
    if contains_seq(content, import_mark(lang)) {
        content
    } else {
        match last_occurrence(content, "import "@) {
            Some(last) => match next_char(content, last, '\n') {
                Some(end) => inserted_at(content, end + 1, import_line(lang)),
                None => content,
            },
            None => import_line(lang) + content,
        }
    }
}

/// An index with a language among its resources. An index that lists the language is left
/// alone, and so is one without a list of resources. Else the entry goes on a line of its own
/// right after the brace that opens the list.
pub open spec fn with_resource(content: Seq<char>, lang: Seq<char>) -> Seq<char> {
    if contains_seq(content, resource_mark(lang)) {
        content
    } else {
        match first_occurrence(content, "const resources = {"@) {
            Some(at) => match next_char(content, at, '{') {
                Some(brace) => inserted_at(content, brace + 1, "\n"@ + resource_line(lang)),
                None => content,
            },
            None => content,
        }
    }
}

/// An index with a language put in: first its import, then its resource entry.
pub open spec fn with_language(content: Seq<char>, lang: Seq<char>) -> Seq<char> {
    with_resource(with_import(content, lang), lang)
}

/// The characters of several strings, one after the other.
fn chars_of_all(parts: &[&str]) -> (all: Vec<char>)
    ensures
        all@ == parts@.fold_left(Seq::<char>::empty(), |acc: Seq<char>, part: &str| acc + part@),
{
    let mut all: Vec<char> = Vec::new();
    let mut i: usize = 0;
    while i < parts.len()
        invariant
            i <= parts.len(),
            all@ == parts@.take(i as int).fold_left(
                Seq::<char>::empty(),
                |acc: Seq<char>, part: &str| acc + part@,
            ),
        decreases parts.len() - i,
    {
        let ghost before = all@;
        let piece = chars_of(parts[i]);
        let mut k: usize = 0;
        while k < piece.len()
            invariant
                k <= piece.len(),
                all@ == before + piece@.subrange(0, k as int),
            decreases piece.len() - k,
        {
            all.push(piece[k]);
            k = k + 1;
        }
        assert(piece@.subrange(0, piece.len() as int) =~= piece@);
        assert(parts@.take(i + 1).drop_last() =~= parts@.take(i as int));
        i = i + 1;
    }
    assert(parts@.take(parts.len() as int) =~= parts@);
    all
}

fn add_import(content: Vec<char>, lang: &str) -> (r: Vec<char>)
    ensures
        r@ == with_import(content@, lang@),
{
    let mark = chars_of_all(&["import ", lang, " from"]);
    let line = chars_of_all(&["import ", lang, " from './locales/", lang, ".json';\n"]);
    proof {
        reveal_with_fuel(Seq::fold_left, 6);
        assert(mark@ =~= import_mark(lang@));
        assert(line@ =~= import_line(lang@));
    }
    if contains_chars(&content, &mark) {
        return content;
    }
    let import = chars_of("import ");
    match find_last_chars(&content, &import) {
        Some(last) => match find_char_from(&content, last, '\n') {
            Some(end) => insert_chars(&content, end + 1, &line),
            None => content,
        },
        None => {
            let r = insert_chars(&content, 0, &line);
            assert(r@ =~= line@ + content@);
            r
        },
    }
}

fn add_resource(content: Vec<char>, lang: &str) -> (r: Vec<char>)
    ensures
        r@ == with_resource(content@, lang@),
{
    let mark = chars_of_all(&[lang, ": { translation:"]);
    let entry = chars_of_all(&["\n", "  ", lang, ": { translation: ", lang, " },\n"]);
    proof {
        reveal_with_fuel(Seq::fold_left, 3);
        assert(mark@ =~= resource_mark(lang@));
        reveal_with_fuel(Seq::fold_left, 7);
        assert(entry@ =~= "\n"@ + resource_line(lang@));
    }
    if contains_chars(&content, &mark) {
        return content;
    }
    let list = chars_of("const resources = {");
    match find_chars(&content, &list) {
        Some(at) => match find_char_from(&content, at, '{') {
            Some(brace) => insert_chars(&content, brace + 1, &entry),
            None => content,
        },
        None => content,
    }
}

/// Puts a language into the text of an index: its import and its entry among the resources.
pub fn add_language(content: &str, lang: &str) -> (r: String)
    ensures
        r@ == with_language(content@, lang@),
{
    let chars = chars_of(content);
    let imported = add_import(chars, lang);
    let listed = add_resource(imported, lang);
    string_of(&listed)
}

/// A line without the carriage return at its end, if it has one.
pub open spec fn without_return(line: Seq<char>) -> Seq<char> {
    if line.len() > 0 && line.last() == '\r' {
        line.drop_last()
    } else {
        line
    }
}

/// The lines of a text. A line ends with a line feed, or with a carriage return and a line
/// feed; neither is part of the line. What stands after the last line feed is a line too, as it
/// is, unless it is empty.
pub open spec fn lines_of(text: Seq<char>) -> Seq<Seq<char>> {
    let pieces = split_on(text, '\n');
    let ended = Seq::new((pieces.len() - 1) as nat, |i: int| without_return(pieces[i]));
    if pieces.last().len() > 0 {
        ended.push(pieces.last())
    } else {
        ended
    }
}

/// Whether a line imports a language or lists it among the resources.
pub open spec fn names_language(line: Seq<char>, lang: Seq<char>) -> bool {
    occurs_at(trimmed(line), import_mark(lang), 0) || occurs_at(
        trimmed(line),
        resource_mark(lang),
        0,
    )
}

/// The predicate "does not name the language".
pub open spec fn other_lines(lang: Seq<char>) -> spec_fn(Seq<char>) -> bool {
    |line: Seq<char>| !names_language(line, lang)
}

/// Lines joined by line feeds; no line feed after the last.
pub open spec fn joined_lines(lines: Seq<Seq<char>>) -> Seq<char>
    decreases lines.len(),
{
    if lines.len() == 0 {
        Seq::empty()
    } else if lines.len() == 1 {
        lines[0]
    } else {
        joined_lines(lines.drop_last()) + seq!['\n'] + lines.last()
    }
}

/// An index with a language taken out: its lines without those that import the language or
/// list it among the resources.
pub open spec fn without_language(content: Seq<char>, lang: Seq<char>) -> Seq<char> {
    joined_lines(lines_of(content).filter(other_lines(lang)))
}

fn begins_with(line: &Vec<char>, mark: &Vec<char>) -> (yes: bool)
    ensures
        yes == occurs_at(line@, mark@, 0),
{
    if mark.len() > line.len() {
        return false;
    }
    let mut k: usize = 0;
    while k < mark.len()
        invariant
            k <= mark.len() <= line.len(),
            forall|j: int| 0 <= j < k ==> line@[j] == mark@[j],
        decreases mark.len() - k,
    {
        if line[k] != mark[k] {
            assert(line@.subrange(0, mark.len() as int)[k as int] != mark@[k as int]);
            return false;
        }
        k = k + 1;
    }
    assert(line@.subrange(0, mark.len() as int) =~= mark@);
    true
}

/// The lines of a text.
pub fn lines(text: &Vec<char>) -> (found: Vec<Vec<char>>)
    ensures
        views(found@) == lines_of(text@),
{
    let pieces = split_chars(text, '\n');
    let ghost all = split_on(text@, '\n');
    let mut found: Vec<Vec<char>> = Vec::new();
    let last: usize = pieces.len() - 1;
    let mut i: usize = 0;
    while i < last
        invariant
            i <= last,
            last == pieces.len() - 1,
            views(pieces@) == all,
            found.len() == i,
            forall|k: int| 0 <= k < i ==> (#[trigger] found@[k])@ == without_return(all[k]),
        decreases last - i,
    {
        let piece = &pieces[i];
        assert(views(pieces@)[i as int] == piece@);
        let mut line: Vec<char> = Vec::new();
        let keep: usize = if piece.len() > 0 && piece[piece.len() - 1] == '\r' {
            piece.len() - 1
        } else {
            piece.len()
        };
        let mut k: usize = 0;
        while k < keep
            invariant
                k <= keep <= piece.len(),
                line@ == piece@.subrange(0, k as int),
            decreases keep - k,
        {
            line.push(piece[k]);
            k = k + 1;
        }
        assert(line@ =~= without_return(piece@));
        found.push(line);
        i = i + 1;
    }
    assert(views(pieces@)[last as int] == pieces@[last as int]@);
    if pieces[last].len() > 0 {
        found.push(pieces[last].clone());
    }
    assert(views(found@) =~= lines_of(text@));
    found
}

/// Takes a language out of the text of an index.
pub fn remove_language(content: &str, lang: &str) -> (r: String)
    ensures
        r@ == without_language(content@, lang@),
{
    let import = chars_of_all(&["import ", lang, " from"]);
    let resource = chars_of_all(&[lang, ": { translation:"]);
    proof {
        reveal_with_fuel(Seq::fold_left, 4);
        assert(import@ =~= import_mark(lang@));
        assert(resource@ =~= resource_mark(lang@));
    }
    let all = lines(&chars_of(content));
    let ghost keep = other_lines(lang@);
    let ghost source = views(all@);
    let mut out: Vec<char> = Vec::new();
    let ghost mut kept: Seq<Seq<char>> = Seq::empty();
    let mut any: bool = false;
    let mut i: usize = 0;
    assert(source.take(0).filter(keep) =~= Seq::<Seq<char>>::empty()) by {
        reveal(Seq::filter);
    }
    while i < all.len()
        invariant
            i <= all.len(),
            source == views(all@),
            keep == other_lines(lang@),
            import@ == import_mark(lang@),
            resource@ == resource_mark(lang@),
            kept == source.take(i as int).filter(keep),
            any == (kept.len() > 0),
            out@ == joined_lines(kept),
        decreases all.len() - i,
    {
        let line = &all[i];
        proof {
            assert(source[i as int] == line@);
            assert(source.take(i + 1) =~= source.take(i as int).push(line@));
            source.take(i as int).lemma_filter_push(line@, keep);
        }
        let tidy = trim_chars(line);
        if !(begins_with(&tidy, &import) || begins_with(&tidy, &resource)) {
            let ghost before = out@;
            if any {
                out.push('\n');
            }
            let mut k: usize = 0;
            while k < line.len()
                invariant
                    k <= line.len(),
                    out@ == before + (if kept.len() > 0 {
                        seq!['\n']
                    } else {
                        Seq::<char>::empty()
                    }) + line@.subrange(0, k as int),
                decreases line.len() - k,
            {
                out.push(line[k]);
                k = k + 1;
            }
            proof {
                assert(line@.subrange(0, line.len() as int) =~= line@);
                assert(kept.push(line@).drop_last() =~= kept);
                if kept.len() == 0 {
                    assert(out@ =~= line@);
                } else {
                    assert(out@ =~= joined_lines(kept) + seq!['\n'] + line@);
                }
                kept = kept.push(line@);
            }
            any = true;
        }
        i = i + 1;
    }
    assert(source.take(all.len() as int) =~= source);
    string_of(&out)
}

/// The index of a new folder of translations with English listed: the first language of every
/// list of locales. An index that names English is left alone.
pub open spec fn with_english(content: Seq<char>) -> Seq<char> {
    if contains_seq(content, "\"en\""@) {
        content
    } else {
        replaced(content, "const locales = ["@, "const locales = [\n  \"en\","@)
    }
}

/// Lists English in the text of the index of a new folder of translations.
pub fn list_english(content: &str) -> (r: String)
    ensures
        r@ == with_english(content@),
{
    let chars = chars_of(content);
    if contains_chars(&chars, &chars_of("\"en\"")) {
        string_of(&chars)
    } else {
        let r = replace_all_chars(
            &chars,
            &chars_of("const locales = ["),
            &chars_of("const locales = [\n  \"en\","),
        );
        string_of(&r)
    }
}

/// The text of the index of a new folder of translations.
pub fn empty_index() -> (r: String)
    ensures
        r@ == "const locales = [\n];\n\nexport default locales;\n"@,
{
    "const locales = [\n];\n\nexport default locales;\n".to_string()
}

/// The greeting for `name`.
pub fn greeting(name: &str) -> (r: String)
    ensures
        r@ == "Hello, "@ + name@ + "! You've been greeted from Rust!"@,
{
    let mut r = "Hello, ".to_string();
    r.append(name);
    r.append("! You've been greeted from Rust!");
    r
}

} // verus!
