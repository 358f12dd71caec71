//! Reading a cache: the text is cut into lines, the lines before the
//! sentinel declare entries, and the lines after it annotate them.

use crate::entry::{kind_of_token, CacheEntry, EntryType, EntryView};
use crate::pattern::{
    captures, compile, found_texts, group_texts, regex_captures, regex_compiles, Pattern,
};
use crate::table::{
    ascending, lemma_put_keeps_order, put, views, with_advanced, with_allowed, EntryTable,
};
use crate::text::{
    chars_of, first_index, lemma_first_index_is, lines, lines_of, precedes, same_text, split,
    string_of, texts,
};
use vstd::prelude::*;
use vstd::string::StringExecFns;

verus! {

/// The line after which a cache holds annotations instead of declarations.
/// It counts only as a whole line.
pub const SENTINEL: &'static str = "# INTERNAL cache entries";

/// The grammar of a declaration, `NAME:TYPE=VALUE`: a name made of letters,
/// digits and underscores that does not begin with a digit, a type token of
/// capital letters, and as the value the rest of the line, equals signs
/// included.
pub const DECLARATION: &'static str = r"^([A-Za-z_][A-Za-z0-9_]*)\:([A-Z]+)\=(.*)$";

/// The grammar of the annotation that lists the values an entry may take,
/// `NAME-STRINGS:INTERNAL=v1;v2;...`.
pub const ENUM_VALUES: &'static str = r"^([^-]+)-STRINGS:INTERNAL=(.+)$";

/// The grammar of the annotation that marks an entry as advanced,
/// `NAME-ADVANCED:INTERNAL=1`.
pub const ADVANCED_FLAG: &'static str = r"^([^-]+)-ADVANCED:INTERNAL=1$";

/// The grammar that the expression engine refused.
#[derive(Clone, Copy, Debug, PartialEq, Eq, Structural)]
pub enum InitError {
    Declaration,
    EnumValues,
    AdvancedFlag,
}

/// Whether a line is a comment: it begins with two slashes.
pub open spec fn is_comment(line: Seq<char>) -> bool {
    line.len() >= 2 && line[0] == '/' && line[1] == '/'
}

/// A line without the comment markers at its start.
pub open spec fn without_markers(line: Seq<char>) -> Seq<char>
    decreases line.len(),
{
    if is_comment(line) {
        without_markers(line.skip(2))
    } else {
        line
    }
}

/// The texts of the `n` groups of a match that follow the whole match;
/// `None` where nothing matched, or where the match does not have just these
/// groups or one of them took no part.
pub open spec fn fields(found: Option<Seq<Option<Seq<char>>>>, n: nat) -> Option<Seq<Seq<char>>> {
    match found {
        Some(groups) => if groups.len() == n + 1 && forall|i: int|
            1 <= i <= n ==> (#[trigger] groups[i]) is Some {
            Some(Seq::new(n, |i: int| groups[i + 1]->0))
        } else {
            None
        },
        None => None,
    }
}

/// The name, type token and value that the declaration grammar finds in a
/// line.
pub open spec fn declared(line: Seq<char>) -> Option<Seq<Seq<char>>> {
    fields(regex_captures(DECLARATION@, line), 3)
}

/// The name and the value list that the enumeration grammar finds in a line.
pub open spec fn listed(line: Seq<char>) -> Option<Seq<Seq<char>>> {
    fields(regex_captures(ENUM_VALUES@, line), 2)
}

/// The name that the advanced-flag grammar finds in a line.
pub open spec fn flagged(line: Seq<char>) -> Option<Seq<Seq<char>>> {
    fields(regex_captures(ADVANCED_FLAG@, line), 1)
}

/// The kind a type token names; text where it names none.
pub open spec fn kind_or_text(token: Seq<char>) -> EntryType {
    match kind_of_token(token) {
        Some(kind) => kind,
        None => EntryType::Str,
    }
}

/// The entry that a declaration with these fields makes under a
/// description.
pub open spec fn declared_entry(f: Seq<Seq<char>>, desc: Seq<char>) -> EntryView {
    EntryView {
        name: f[0],
        entry_type: kind_or_text(f[1]),
        desc,
        value: f[2],
        values: Seq::empty(),
        advanced: false,
        original: f[2],
    }
}

/// Where the scan of the declarations stands: the entries so far and the
/// description gathered for the next one.
pub struct Scan {
    pub entries: Seq<EntryView>,
    pub pending: Seq<char>,
}

/// The scan after a comment line: its text joins the description.
pub open spec fn comment_step(st: Scan, line: Seq<char>) -> Scan {
    Scan { entries: st.entries, pending: st.pending + without_markers(line) }
}

/// The scan after a line that is no comment, given what the declaration
/// grammar found in it. A declaration takes the description and leaves none;
/// its entry is put under its name unless its kind is `Static`. Any other
/// line changes nothing.
pub open spec fn declaration_step(st: Scan, found: Option<Seq<Seq<char>>>) -> Scan {
    match found {
        Some(f) => {
            let e = declared_entry(f, st.pending);
            Scan {
                entries: if e.entry_type == EntryType::Static {
                    st.entries
                } else {
                    put(st.entries, e)
                },
                pending: Seq::empty(),
            }
        },
        None => st,
    }
}

/// The scan after one more line of the declarations.
pub open spec fn external_step(st: Scan, line: Seq<char>) -> Scan {
    if is_comment(line) {
        comment_step(st, line)
    } else {
        declaration_step(st, declared(line))
    }
}

/// The scan after all the lines of the declarations.
pub open spec fn scan_external(lines: Seq<Seq<char>>) -> Scan
    decreases lines.len(),
{
    if lines.len() == 0 {
        Scan { entries: Seq::empty(), pending: Seq::empty() }
    } else {
        external_step(scan_external(lines.drop_last()), lines.last())
    }
}

/// The entries after an annotation line, given what the two annotation
/// grammars found in it: a value list makes the entry it names an
/// enumeration, a flag makes the entry it names advanced, and a name that no
/// entry bears changes nothing.
pub open spec fn annotation_step(
    entries: Seq<EntryView>,
    list: Option<Seq<Seq<char>>>,
    flag: Option<Seq<Seq<char>>>,
) -> Seq<EntryView> {
    let named = match list {
        Some(f) => with_allowed(entries, f[0], split(f[1], ';')),
        None => entries,
    };
    match flag {
        Some(f) => with_advanced(named, f[0]),
        None => named,
    }
}

/// The entries after one more line of the annotations.
pub open spec fn internal_step(entries: Seq<EntryView>, line: Seq<char>) -> Seq<EntryView> {
    annotation_step(entries, listed(line), flagged(line))
}

/// The entries after all the lines of the annotations.
pub open spec fn scan_internal(entries: Seq<EntryView>, lines: Seq<Seq<char>>) -> Seq<EntryView>
    decreases lines.len(),
{
    if lines.len() == 0 {
        entries
    } else {
        internal_step(scan_internal(entries, lines.drop_last()), lines.last())
    }
}

/// The entries of a cache, in the order of their names. The first line that
/// is the sentinel parts the declarations from the annotations; without it
/// every line is read as a declaration.
pub open spec fn parsed(content: Seq<char>) -> Seq<EntryView> {
    let all = lines(content);
    let at = first_index(all, SENTINEL@);
    if 0 <= at < all.len() {
        scan_internal(scan_external(all.take(at)).entries, all.skip(at + 1))
    } else {
        scan_external(all).entries
    }
}

/// The texts of a list of strings that may be missing.
pub open spec fn text_list(v: Option<Vec<String>>) -> Option<Seq<Seq<char>>> {
    match v {
        Some(v) => Some(texts(v@)),
        None => None,
    }
}

/// Whether the engine accepts the three grammars.
pub open spec fn grammars_compile() -> bool {
    regex_compiles(DECLARATION@) && regex_compiles(ENUM_VALUES@) && regex_compiles(ADVANCED_FLAG@)
}

/// The first grammar, in the order declaration, value list, flag, that the
/// engine refuses.
pub open spec fn refused_grammar() -> InitError {
    if !regex_compiles(DECLARATION@) {
        InitError::Declaration
    } else if !regex_compiles(ENUM_VALUES@) {
        InitError::EnumValues
    } else {
        InitError::AdvancedFlag
    }
}

/// The text of a comment line without its markers; `None` for a line that
/// is no comment.
pub fn comment_text(line: &str) -> (r: Option<String>)
    ensures
        r is Some <==> is_comment(line@),
        r matches Some(t) ==> t@ == without_markers(line@),
{
    let chars = chars_of(line);
    let n = chars.len();
    if !(n >= 2 && chars[0] == '/' && chars[1] == '/') {
        return None;
    }
    let mut k: usize = 0;
    assert(chars@.skip(0) =~= chars@);
    while n - k >= 2 && chars[k] == '/' && chars[k + 1] == '/'
        invariant
            k <= n,
            n == chars.len(),
            chars@ == line@,
            without_markers(line@) == without_markers(chars@.skip(k as int)),
        decreases n - k,
    {
        proof {
            let rest = chars@.skip(k as int);
            assert(rest[0] == chars@[k as int] && rest[1] == chars@[k + 1]);
            assert(rest.skip(2) =~= chars@.skip(k + 2));
        }
        k = k + 2;
    }
    proof {
        let rest = chars@.skip(k as int);
        if rest.len() >= 2 {
            assert(rest[0] == chars@[k as int] && rest[1] == chars@[k + 1]);
        }
        assert(rest =~= chars@.subrange(k as int, n as int));
    }
    Some(string_of(&chars, k, n))
}

/// The texts of the `n` groups of a match that follow the whole match.
pub fn fields_of(found: &Option<Vec<Option<String>>>, n: usize) -> (r: Option<Vec<String>>)
    requires
        n < usize::MAX,
    ensures
        text_list(r) == fields(found_texts(*found), n as nat),
        r matches Some(v) ==> v.len() == n,
{
    match found {
        None => None,
        Some(groups) => {
            let ghost g = group_texts(groups@);
            if groups.len() != n + 1 {
                return None;
            }
            let mut out: Vec<String> = Vec::new();
            let mut i: usize = 1;
            while i <= n
                invariant
                    1 <= i <= n + 1,
                    groups.len() == n + 1,
                    *found == Some(*groups),
                    g == group_texts(groups@),
                    out.len() == i - 1,
                    forall|j: int| 1 <= j < i ==> (#[trigger] g[j]) is Some,
                    forall|j: int| 0 <= j < i - 1 ==> (#[trigger] out[j])@ == g[j + 1]->0,
                decreases n + 1 - i,
            {
                match &groups[i] {
                    Some(s) => {
                        out.push(s.clone());
                    },
                    None => {
                        assert(found_texts(*found) == Some(g));
                        assert(g[i as int] is None);
                        return None;
                    },
                }
                i = i + 1;
            }
            assert(texts(out@) =~= Seq::new(n as nat, |i: int| g[i + 1]->0));
            Some(out)
        },
    }
}

/// Applies to the scan what the declaration grammar found in a line that is
/// no comment.
pub fn declare(
    table: &mut EntryTable,
    pending: &mut String,
    found: &Option<Vec<Option<String>>>,
)
    requires
        old(table).wf(),
    ensures
        final(table).wf(),
        (Scan { entries: final(table)@, pending: final(pending)@ }) == declaration_step(
            (Scan { entries: old(table)@, pending: old(pending)@ }),
            fields(found_texts(*found), 3),
        ),
{
    match fields_of(found, 3) {
        Some(f) => {
            let kind = match EntryType::from_str(f[1].as_str()) {
                Some(kind) => kind,
                None => EntryType::Str,
            };
            let entry = CacheEntry::new(f[0].clone(), kind, pending.clone(), f[2].clone());
            if !(kind == EntryType::Static) {
                table.insert(entry);
            }
            *pending = String::new();
        },
        None => {},
    }
}

/// Applies to the entries what the two annotation grammars found in a line.
pub fn annotate(
    table: &mut EntryTable,
    list: &Option<Vec<Option<String>>>,
    flag: &Option<Vec<Option<String>>>,
)
    requires
        old(table).wf(),
    ensures
        final(table).wf(),
        final(table)@ == annotation_step(
            old(table)@,
            fields(found_texts(*list), 2),
            fields(found_texts(*flag), 1),
        ),
{
    match fields_of(list, 2) {
        Some(f) => {
            table.set_allowed(f[0].as_str(), f[1].as_str());
        },
        None => {},
    }
    match fields_of(flag, 1) {
        Some(f) => {
            table.set_advanced(f[0].as_str());
        },
        None => {},
    }
}

/// The three compiled grammars of a cache.
pub struct CacheParser {
    var_regex: Pattern,
    enum_regex: Pattern,
    advanced_regex: Pattern,
}

impl CacheParser {
    #[verifier::type_invariant]
    spec fn holds_the_grammars(self) -> bool {
        &&& self.var_regex.source() == DECLARATION@
        &&& self.enum_regex.source() == ENUM_VALUES@
        &&& self.advanced_regex.source() == ADVANCED_FLAG@
    }

    /// Compiles the grammars. This fails only where the engine refuses one
    /// of them, and then names the first that it refused.
    pub fn new() -> (r: Result<Self, InitError>)
        ensures
            r is Ok <==> grammars_compile(),
            r matches Err(e) ==> e == refused_grammar(),
    {
        let var_regex = match compile(DECLARATION) {
            Ok(p) => p,
            Err(_) => {
                return Err(InitError::Declaration);
            },
        };
        let enum_regex = match compile(ENUM_VALUES) {
            Ok(p) => p,
            Err(_) => {
                return Err(InitError::EnumValues);
            },
        };
        let advanced_regex = match compile(ADVANCED_FLAG) {
            Ok(p) => p,
            Err(_) => {
                return Err(InitError::AdvancedFlag);
            },
        };
        Ok(CacheParser { var_regex, enum_regex, advanced_regex })
    }

    /// Scans the first `end` lines as declarations.
    pub fn parse_external_section(&self, lines: &Vec<String>, end: usize) -> (table: EntryTable)
        requires
            end <= lines.len(),
        ensures
            table.wf(),
            table@ == scan_external(texts(lines@).take(end as int)).entries,
    {
        proof {
            use_type_invariant(self);
        }
        let ghost all = texts(lines@);
        let mut table = EntryTable::new();
        let mut pending = String::new();
        let mut i: usize = 0;
        while i < end
            invariant
                i <= end <= lines.len(),
                all == texts(lines@),
                self.var_regex.source() == DECLARATION@,
                table.wf(),
                (Scan { entries: table@, pending: pending@ }) == scan_external(all.take(i as int)),
            decreases end - i,
        {
            let line = lines[i].as_str();
            proof {
                assert(all.take(i + 1).drop_last() =~= all.take(i as int));
                assert(all.take(i + 1).last() == line@);
            }
            match comment_text(line) {
                Some(text) => {
                    pending.append(text.as_str());
                },
                None => {
                    let found = captures(&self.var_regex, line);
                    declare(&mut table, &mut pending, &found);
                },
            }
            i = i + 1;
        }
        table
    }

    /// Scans the lines from `start` on as annotations of the entries in
    /// `table`.
    pub fn parse_internal_section(&self, lines: &Vec<String>, start: usize, table: &mut EntryTable)
        requires
            start <= lines.len(),
            old(table).wf(),
        ensures
            final(table).wf(),
            final(table)@ == scan_internal(old(table)@, texts(lines@).skip(start as int)),
    {
        proof {
            use_type_invariant(self);
        }
        let ghost rest = texts(lines@).skip(start as int);
        let ghost first = table@;
        let mut i: usize = start;
        while i < lines.len()
            invariant
                start <= i <= lines.len(),
                rest == texts(lines@).skip(start as int),
                self.enum_regex.source() == ENUM_VALUES@,
                self.advanced_regex.source() == ADVANCED_FLAG@,
                table.wf(),
                table@ == scan_internal(first, rest.take(i - start)),
            decreases lines.len() - i,
        {
            let line = lines[i].as_str();
            proof {
                assert(rest.take(i - start + 1).drop_last() =~= rest.take(i - start));
                assert(rest.take(i - start + 1).last() == line@);
            }
            let list = captures(&self.enum_regex, line);
            let flag = captures(&self.advanced_regex, line);
            annotate(table, &list, &flag);
            i = i + 1;
        }
        assert(rest.take(lines.len() - start) =~= rest);
    }

    /// Reads a cache into the table of its entries.
    pub fn parse_cache(&self, content: &str) -> (table: EntryTable)
        ensures
            table.wf(),
            table@ == parsed(content@),
    {
        let all = lines_of(content);
        let ghost seen = texts(all@);
        let mut at: usize = 0;
        while at < all.len() && !same_text(all[at].as_str(), SENTINEL)
            invariant
                at <= all.len(),
                seen == texts(all@),
                forall|j: int| 0 <= j < at ==> seen[j] != SENTINEL@,
            decreases all.len() - at,
        {
            at = at + 1;
        }
        proof {
            if at < all.len() {
                assert(seen[at as int] == SENTINEL@);
            }
            lemma_first_index_is(seen, SENTINEL@, at as int);
        }
        let mut table = self.parse_external_section(&all, at);
        if at < all.len() {
            self.parse_internal_section(&all, at + 1, &mut table);
        } else {
            assert(seen.take(at as int) =~= seen);
        }
        table
    }
}

/// Reads the text of a cache into its entries, in the order of their names.
/// This fails only where the engine refuses a grammar.
pub fn parse_cmake_cache(content: &str) -> (r: Result<Vec<CacheEntry>, InitError>)
    ensures
        r is Ok <==> grammars_compile(),
        r matches Ok(v) ==> views(v@) == parsed(content@) && ascending(views(v@)) && none_static(
            views(v@),
        ),
        r matches Err(e) ==> e == refused_grammar(),
{
    match CacheParser::new() {
        Ok(parser) => {
            let table = parser.parse_cache(content);
            proof {
                lemma_parsed(content@);
            }
            Ok(table.into_entries())
        },
        Err(e) => Err(e),
    }
}

/// Why there are no entries to work on.
#[derive(Debug)]
pub enum LoadError {
    /// The cache could not be read; the text says why.
    Io(String),
    /// The engine refused a grammar.
    Init(InitError),
}

/// The entries to start a session with, given what reading the cache file
/// gave: its text, or the reason why there is none. A text is parsed. A
/// failed read is an error, unless the caller is `lenient`: then the session
/// starts without entries. A refused grammar is an error in either case.
pub fn load_entries(read: Result<String, String>, lenient: bool) -> (r: Result<
    Vec<CacheEntry>,
    LoadError,
>)
    ensures
        match read {
            Ok(text) => match r {
                Ok(v) => grammars_compile() && views(v@) == parsed(text@),
                Err(e) => !grammars_compile() && e == LoadError::Init(refused_grammar()),
            },
            Err(why) => match r {
                Ok(v) => lenient && v.len() == 0,
                Err(e) => !lenient && e == LoadError::Io(why),
            },
        },
{
    match read {
        Ok(text) => match parse_cmake_cache(text.as_str()) {
            Ok(v) => Ok(v),
            Err(e) => Err(LoadError::Init(e)),
        },
        Err(why) => if lenient {
            Ok(Vec::new())
        } else {
            Err(LoadError::Io(why))
        },
    }
}

/// Whether no entry is of the kind `Static`.
pub open spec fn none_static(s: Seq<EntryView>) -> bool {
    forall|i: int| 0 <= i < s.len() ==> (#[trigger] s[i]).entry_type != EntryType::Static
}

/// The descriptions of a run of comment lines, joined in their order.
pub open spec fn gathered(comments: Seq<Seq<char>>) -> Seq<char>
    decreases comments.len(),
{
    if comments.len() == 0 {
        Seq::empty()
    } else {
        gathered(comments.drop_last()) + without_markers(comments.last())
    }
}

/// A step of the scan keeps the names ascending and free of `Static`
/// entries.
pub proof fn lemma_external_step(st: Scan, line: Seq<char>)
    requires
        ascending(st.entries),
        none_static(st.entries),
    ensures
        ascending(external_step(st, line).entries),
        none_static(external_step(st, line).entries),
{
    if !is_comment(line) {
        match declared(line) {
            Some(f) => {
                let e = declared_entry(f, st.pending);
                if e.entry_type != EntryType::Static {
                    lemma_put_keeps_order(st.entries, e);
                    let out = put(st.entries, e);
                    assert forall|i: int| 0 <= i < out.len() implies (#[trigger] out[i]).entry_type
                        != EntryType::Static by {
                        if out[i] != e {
                            let j = choose|j: int|
                                0 <= j < st.entries.len() && st.entries[j] == out[i];
                            assert(st.entries[j].entry_type != EntryType::Static);
                        }
                    }
                }
            },
            None => {},
        }
    }
}

/// Whatever the declarations are, the scan leaves ascending names and no
/// `Static` entry.
pub proof fn lemma_scan_external(lines: Seq<Seq<char>>)
    ensures
        ascending(scan_external(lines).entries),
        none_static(scan_external(lines).entries),
    decreases lines.len(),
{
    if lines.len() > 0 {
        lemma_scan_external(lines.drop_last());
        lemma_external_step(scan_external(lines.drop_last()), lines.last());
    }
}

/// Annotations change neither the number of the entries nor their names,
/// values and descriptions, and make no entry `Static`.
pub proof fn lemma_scan_internal(entries: Seq<EntryView>, lines: Seq<Seq<char>>)
    ensures
        scan_internal(entries, lines).len() == entries.len(),
        forall|i: int|
            0 <= i < entries.len() ==> {
                let e = #[trigger] scan_internal(entries, lines)[i];
                &&& e.name == entries[i].name
                &&& e.value == entries[i].value
                &&& e.original == entries[i].original
                &&& e.desc == entries[i].desc
                &&& e.entry_type == entries[i].entry_type || e.entry_type == EntryType::Enum
            },
        ascending(entries) ==> ascending(scan_internal(entries, lines)),
        none_static(entries) ==> none_static(scan_internal(entries, lines)),
    decreases lines.len(),
{
    if lines.len() > 0 {
        let prior = scan_internal(entries, lines.drop_last());
        lemma_scan_internal(entries, lines.drop_last());
        let out = scan_internal(entries, lines);
        assert(out == internal_step(prior, lines.last()));
        assert(out.len() == entries.len());
        assert forall|i: int| 0 <= i < entries.len() implies {
            let e = #[trigger] out[i];
            &&& e.name == entries[i].name
            &&& e.value == entries[i].value
            &&& e.original == entries[i].original
            &&& e.desc == entries[i].desc
            &&& e.entry_type == entries[i].entry_type || e.entry_type == EntryType::Enum
        } by {
            assert(prior[i].name == entries[i].name);
        }
        if ascending(entries) {
            assert forall|i: int, j: int| 0 <= i < j < out.len() implies precedes(
                out[i].name,
                out[j].name,
            ) by {
                assert(out[i].name == entries[i].name);
                assert(out[j].name == entries[j].name);
            }
        }
        if none_static(entries) {
            assert forall|i: int| 0 <= i < out.len() implies (#[trigger] out[i]).entry_type
                != EntryType::Static by {
                assert(entries[i].entry_type != EntryType::Static);
            }
        }
    }
}

/// No name occurs twice among the entries of a cache, and a declaration of
/// the kind `Static` is never among them, whatever the annotations say.
pub proof fn lemma_parsed(content: Seq<char>)
    ensures
        ascending(parsed(content)),
        none_static(parsed(content)),
{
    let all = lines(content);
    let at = first_index(all, SENTINEL@);
    if 0 <= at < all.len() {
        lemma_scan_external(all.take(at));
        lemma_scan_internal(scan_external(all.take(at)).entries, all.skip(at + 1));
    } else {
        lemma_scan_external(all);
    }
}

/// A line in which the declaration grammar finds a name, a type token and a
/// value becomes the one entry of that name, with exactly the captured name
/// and value, the kind that the token names (text where it names none) and
/// the description gathered so far; nothing of the description is left for
/// the next entry. A declaration of the kind `Static` only uses up the
/// description.
pub proof fn lemma_declaration_recovered(st: Scan, line: Seq<char>, f: Seq<Seq<char>>)
    requires
        ascending(st.entries),
        !is_comment(line),
        declared(line) == Some(f),
    ensures
        external_step(st, line).pending.len() == 0,
        kind_or_text(f[1]) == EntryType::Static ==> external_step(st, line).entries == st.entries,
        kind_or_text(f[1]) != EntryType::Static ==> exists|i: int|
            0 <= i < external_step(st, line).entries.len() && #[trigger] external_step(
                st,
                line,
            ).entries[i] == declared_entry(f, st.pending),
        forall|i: int|
            0 <= i < external_step(st, line).entries.len() && (#[trigger] external_step(
                st,
                line,
            ).entries[i]).name == f[0] && kind_or_text(f[1]) != EntryType::Static
                ==> external_step(st, line).entries[i] == declared_entry(f, st.pending),
{
    let e = declared_entry(f, st.pending);
    if e.entry_type != EntryType::Static {
        lemma_put_keeps_order(st.entries, e);
        let out = put(st.entries, e);
        let i = choose|i: int| 0 <= i < out.len() && #[trigger] out[i].name == e.name;
        assert(out[i] == e);
    }
}

/// A run of comment lines adds the text of each, without its markers, to
/// the description and changes nothing else.
pub proof fn lemma_comment_run(head: Seq<Seq<char>>, comments: Seq<Seq<char>>)
    requires
        forall|i: int| 0 <= i < comments.len() ==> is_comment(#[trigger] comments[i]),
    ensures
        scan_external(head + comments) == (Scan {
            entries: scan_external(head).entries,
            pending: scan_external(head).pending + gathered(comments),
        }),
    decreases comments.len(),
{
    if comments.len() == 0 {
        assert(head + comments =~= head);
        assert(scan_external(head).pending + gathered(comments) =~= scan_external(head).pending);
    } else {
        let shorter = comments.drop_last();
        lemma_comment_run(head, shorter);
        assert((head + comments).drop_last() =~= head + shorter);
        assert((head + comments).last() == comments.last());
        assert(scan_external(head).pending + gathered(shorter) + without_markers(comments.last())
            =~= scan_external(head).pending + gathered(comments));
    }
}

/// The run of comment lines between one declaration and the next describes
/// the next and no other: where the lines before the run leave no
/// description over, as they do when they are none or end in a declaration,
/// the entry that the declaration after the run makes is described by the
/// texts of the run alone.
pub proof fn lemma_described_by_run(
    head: Seq<Seq<char>>,
    comments: Seq<Seq<char>>,
    line: Seq<char>,
    f: Seq<Seq<char>>,
)
    requires
        scan_external(head).pending.len() == 0,
        forall|i: int| 0 <= i < comments.len() ==> is_comment(#[trigger] comments[i]),
        !is_comment(line),
        declared(line) == Some(f),
        kind_or_text(f[1]) != EntryType::Static,
    ensures
        exists|i: int|
            0 <= i < scan_external((head + comments).push(line)).entries.len()
                && #[trigger] scan_external((head + comments).push(line)).entries[i]
                == declared_entry(f, gathered(comments)),
{
    lemma_comment_run(head, comments);
    lemma_scan_external(head + comments);
    let st = scan_external(head + comments);
    assert(st.pending =~= gathered(comments));
    let all = (head + comments).push(line);
    assert(all.drop_last() =~= head + comments);
    assert(all.last() == line);
    assert(scan_external(all) == external_step(st, line));
    lemma_declaration_recovered(st, line, f);
    let out = external_step(st, line).entries;
    let i = choose|i: int| 0 <= i < out.len() && #[trigger] out[i] == declared_entry(f, st.pending);
    assert(scan_external(all).entries[i] == declared_entry(f, gathered(comments)));
}

} // verus!
