//! Parser for the package-database dump: a flat text document of records,
//! each opening with a `name` line, followed by keyword-prefixed field lines,
//! and closed by a blank line or the end of the input.
//!
//! The grammar is stated by the `spec_*` functions below; every executable
//! parser is proved to return exactly what its spec function says.

use vstd::prelude::*;
use vstd::string::*;
use crate::text_util::{
    is_line_break_char, line_end, lemma_scan_while, find_line_end,
    scan_digits, find_scan_digits, dec_val, all_digits, parse_dec_range, has_prefix_at,
    try_keyword, is_digit,
};

verus! {

// ---------------------------------------------------------------------------
// The parsed record types.
// ---------------------------------------------------------------------------

#[derive(Debug, Hash, PartialEq, Eq)]
pub enum Category {
    TLCore,
    Scheme,
    Collection,
    ConTeXt,
    Package,
}

#[derive(Debug, Default, PartialEq, Eq)]
pub struct BorrowedContactEntry {
    pub announce: Option<String>,
    pub bugs: Option<String>,
    pub development: Option<String>,
    pub home: Option<String>,
    pub repository: Option<String>,
    pub support: Option<String>,
}

#[derive(Debug, Default, PartialEq, Eq)]
pub struct BorrowedCatalogueEntry {
    pub name: Option<String>,
    pub alias: Option<String>,
    pub also: Option<String>,
    pub contact: BorrowedContactEntry,
    pub ctan: Option<String>,
    pub license: Option<String>,
    pub topics: Option<String>,
    pub version: Option<String>,
}

#[derive(Debug, Default, PartialEq, Eq)]
pub struct BorrowedFiles {
    pub size: u32,
    pub files: Vec<String>,
}

#[derive(Debug, PartialEq, Eq)]
pub struct BorrowedEntry {
    pub name: String,
    pub catalogue: BorrowedCatalogueEntry,
    pub category: Category,
    pub container_checksum: Option<String>,
    pub container_size: Option<String>,
    pub depend: Vec<String>,
    pub execute: Vec<String>,
    pub long_desc: Option<String>,
    pub post_action: Vec<String>,
    pub relocated: bool,
    pub revision: u32,
    pub short_desc: Option<String>,
    pub bin_files: Vec<(String, BorrowedFiles)>,
    pub doc_container_checksum: Option<String>,
    pub doc_container_size: Option<String>,
    pub doc_files: Option<BorrowedFiles>,
    pub run_files: Option<BorrowedFiles>,
    pub src_container_checksum: Option<String>,
    pub src_container_size: Option<String>,
    pub src_files: Option<BorrowedFiles>,
}

// Mathematical images of the record types.

#[verifier::ext_equal]
pub ghost struct FilesV {
    pub size: u32,
    pub files: Seq<Seq<char>>,
}

#[verifier::ext_equal]
pub ghost struct ContactV {
    pub announce: Option<Seq<char>>,
    pub bugs: Option<Seq<char>>,
    pub development: Option<Seq<char>>,
    pub home: Option<Seq<char>>,
    pub repository: Option<Seq<char>>,
    pub support: Option<Seq<char>>,
}

#[verifier::ext_equal]
pub ghost struct CatalogueV {
    pub name: Option<Seq<char>>,
    pub alias: Option<Seq<char>>,
    pub also: Option<Seq<char>>,
    pub contact: ContactV,
    pub ctan: Option<Seq<char>>,
    pub license: Option<Seq<char>>,
    pub topics: Option<Seq<char>>,
    pub version: Option<Seq<char>>,
}

#[verifier::ext_equal]
pub ghost struct EntryV {
    pub name: Seq<char>,
    pub catalogue: CatalogueV,
    pub category: Category,
    pub container_checksum: Option<Seq<char>>,
    pub container_size: Option<Seq<char>>,
    pub depend: Seq<Seq<char>>,
    pub execute: Seq<Seq<char>>,
    pub long_desc: Option<Seq<char>>,
    pub post_action: Seq<Seq<char>>,
    pub relocated: bool,
    pub revision: u32,
    pub short_desc: Option<Seq<char>>,
    pub bin_files: Seq<(Seq<char>, FilesV)>,
    pub doc_container_checksum: Option<Seq<char>>,
    pub doc_container_size: Option<Seq<char>>,
    pub doc_files: Option<FilesV>,
    pub run_files: Option<FilesV>,
    pub src_container_checksum: Option<Seq<char>>,
    pub src_container_size: Option<Seq<char>>,
    pub src_files: Option<FilesV>,
}

impl DeepView for BorrowedFiles {
    type V = FilesV;

    open spec fn deep_view(&self) -> FilesV {
        FilesV { size: self.size, files: self.files.deep_view() }
    }
}

impl DeepView for BorrowedContactEntry {
    type V = ContactV;

    open spec fn deep_view(&self) -> ContactV {
        ContactV {
            announce: self.announce.deep_view(),
            bugs: self.bugs.deep_view(),
            development: self.development.deep_view(),
            home: self.home.deep_view(),
            repository: self.repository.deep_view(),
            support: self.support.deep_view(),
        }
    }
}

impl DeepView for BorrowedCatalogueEntry {
    type V = CatalogueV;

    open spec fn deep_view(&self) -> CatalogueV {
        CatalogueV {
            name: self.name.deep_view(),
            alias: self.alias.deep_view(),
            also: self.also.deep_view(),
            contact: self.contact.deep_view(),
            ctan: self.ctan.deep_view(),
            license: self.license.deep_view(),
            topics: self.topics.deep_view(),
            version: self.version.deep_view(),
        }
    }
}

impl DeepView for BorrowedEntry {
    type V = EntryV;

    open spec fn deep_view(&self) -> EntryV {
        EntryV {
            name: self.name@,
            catalogue: self.catalogue.deep_view(),
            category: self.category,
            container_checksum: self.container_checksum.deep_view(),
            container_size: self.container_size.deep_view(),
            depend: self.depend.deep_view(),
            execute: self.execute.deep_view(),
            long_desc: self.long_desc.deep_view(),
            post_action: self.post_action.deep_view(),
            relocated: self.relocated,
            revision: self.revision,
            short_desc: self.short_desc.deep_view(),
            bin_files: self.bin_files.deep_view(),
            doc_container_checksum: self.doc_container_checksum.deep_view(),
            doc_container_size: self.doc_container_size.deep_view(),
            doc_files: self.doc_files.deep_view(),
            run_files: self.run_files.deep_view(),
            src_container_checksum: self.src_container_checksum.deep_view(),
            src_container_size: self.src_container_size.deep_view(),
            src_files: self.src_files.deep_view(),
        }
    }
}

impl DeepView for Category {
    type V = Category;

    open spec fn deep_view(&self) -> Category {
        *self
    }
}

// ---------------------------------------------------------------------------
// Line-level grammar: content runs, line endings, comment lines.
// ---------------------------------------------------------------------------

/// The characters of one line, read from `i` up to the first line break.
/// Fails when the line is cut by a carriage return that no newline follows
/// (no line content may hold such a character).
pub open spec fn spec_line_content(s: Seq<char>, i: int) -> Option<(Seq<char>, int)> {
    let e = line_end(s, i);
    if e < s.len() && s[e] == '\r' && !(e + 1 < s.len() && s[e + 1] == '\n') {
        None
    } else {
        Some((s.subrange(i, e), e))
    }
}

/// A line ending: a newline, or a carriage return followed by a newline.
pub open spec fn spec_line_ending(s: Seq<char>, i: int) -> Option<int> {
    if 0 <= i && i < s.len() && s[i] == '\n' {
        Some(i + 1)
    } else if 0 <= i && i + 1 < s.len() && s[i] == '\r' && s[i + 1] == '\n' {
        Some(i + 2)
    } else {
        None
    }
}

/// Consumes any run of complete `#`-comment lines starting at `i`.
pub open spec fn skip_comments(s: Seq<char>, i: int) -> int
    decreases s.len() - i when 0 <= i <= s.len()
{
    if i < s.len() && s[i] == '#' {
        match spec_line_content(s, i + 1) {
            Some(ce) => match spec_line_ending(s, ce.1) {
                Some(j) => if i < j && j <= s.len() {
                    skip_comments(s, j)
                } else {
                    i
                },
                None => i,
            },
            None => i,
        }
    } else {
        i
    }
}

/// A line break as the record grammar sees one: a line ending, then any
/// comment lines that follow it.
pub open spec fn spec_linebreak(s: Seq<char>, i: int) -> Option<int> {
    match spec_line_ending(s, i) {
        Some(j) => Some(skip_comments(s, j)),
        None => None,
    }
}

/// The tail of a field line: its remaining content, closed by a line break.
pub open spec fn spec_str_tail(s: Seq<char>, i: int) -> Option<(Seq<char>, int)> {
    match spec_line_content(s, i) {
        Some(ce) => match spec_linebreak(s, ce.1) {
            Some(j) => Some((ce.0, j)),
            None => None,
        },
        None => None,
    }
}

pub proof fn lemma_skip_comments_bounds(s: Seq<char>, i: int)
    requires
        0 <= i <= s.len(),
    ensures
        i <= skip_comments(s, i) <= s.len(),
    decreases s.len() - i,
{
    if i < s.len() && s[i] == '#' {
        if let Some(ce) = spec_line_content(s, i + 1) {
            lemma_scan_while(s, i + 1, |c: char| !is_line_break_char(c));
            if let Some(j) = spec_line_ending(s, ce.1) {
                if i < j && j <= s.len() {
                    lemma_skip_comments_bounds(s, j);
                }
            }
        }
    }
}

/// Reads one line's content as an owned string.
pub fn read_line_content(s: &str, i: usize) -> (r: Option<(String, usize)>)
    requires
        i <= s@.len(),
    ensures
        r is Some <==> spec_line_content(s@, i as int) is Some,
        r matches Some((c, e)) ==> spec_line_content(s@, i as int) == Some((c@, e as int))
            && i <= e <= s@.len(),
{
    let n = s.unicode_len();
    let e = find_line_end(s, i);
    if e < n && s.get_char(e) == '\r' {
        if !(e + 1 < n && s.get_char(e + 1) == '\n') {
            return None;
        }
    }
    let c = s.substring_char(i, e).to_owned();
    Some((c, e))
}

/// Consumes a line ending at `i` if one is there.
pub fn take_line_ending(s: &str, i: usize) -> (r: Option<usize>)
    requires
        i <= s@.len(),
    ensures
        r is Some <==> spec_line_ending(s@, i as int) is Some,
        r matches Some(j) ==> spec_line_ending(s@, i as int) == Some(j as int)
            && i < j <= s@.len(),
{
    let n = s.unicode_len();
    if i < n && s.get_char(i) == '\n' {
        Some(i + 1)
    } else if i < n && i + 1 < n && s.get_char(i) == '\r' && s.get_char(i + 1) == '\n' {
        Some(i + 2)
    } else {
        None
    }
}

/// Consumes the run of comment lines starting at `i`.
pub fn consume_comments(s: &str, i: usize) -> (r: usize)
    requires
        i <= s@.len(),
    ensures
        r == skip_comments(s@, i as int),
        i <= r <= s@.len(),
{
    let n = s.unicode_len();
    let mut j: usize = i;
    proof {
        lemma_skip_comments_bounds(s@, i as int);
    }
    loop
        invariant
            i <= j <= n == s@.len(),
            skip_comments(s@, i as int) == skip_comments(s@, j as int),
        ensures
            i <= j <= s@.len(),
            j == skip_comments(s@, i as int),
        decreases n - j,
    {
        proof {
            lemma_skip_comments_bounds(s@, j as int);
        }
        if !(j < n && s.get_char(j) == '#') {
            assert(skip_comments(s@, j as int) == j);
            break;
        }
        match read_line_content(s, j + 1) {
            None => {
                assert(skip_comments(s@, j as int) == j);
                break;
            },
            Some((_c, e)) => {
                match take_line_ending(s, e) {
                    None => {
                        assert(skip_comments(s@, j as int) == j);
                        break;
                    },
                    Some(k) => {
                        assert(skip_comments(s@, j as int) == skip_comments(s@, k as int));
                        j = k;
                    },
                }
            },
        }
    }
    j
}

/// Consumes a line break (line ending plus trailing comment lines).
pub fn take_linebreak(s: &str, i: usize) -> (r: Option<usize>)
    requires
        i <= s@.len(),
    ensures
        r is Some <==> spec_linebreak(s@, i as int) is Some,
        r matches Some(j) ==> spec_linebreak(s@, i as int) == Some(j as int)
            && i < j <= s@.len(),
{
    match take_line_ending(s, i) {
        None => None,
        Some(j) => Some(consume_comments(s, j)),
    }
}

/// Reads a field line's tail: content plus closing line break.
pub fn take_str_tail(s: &str, i: usize) -> (r: Option<(String, usize)>)
    requires
        i <= s@.len(),
    ensures
        r is Some <==> spec_str_tail(s@, i as int) is Some,
        r matches Some((c, j)) ==> spec_str_tail(s@, i as int) == Some((c@, j as int))
            && i < j <= s@.len(),
{
    match read_line_content(s, i) {
        None => None,
        Some((c, e)) => match take_linebreak(s, e) {
            None => None,
            Some(j) => Some((c, j)),
        },
    }
}

} // verus!

verus! {

// ---------------------------------------------------------------------------
// Fields of a record.
// ---------------------------------------------------------------------------

/// The fields that take one string value and may appear at most once.
#[derive(Clone, Copy, Debug, PartialEq, Eq)]
pub enum StrField {
    Catalogue,
    CatalogueCtan,
    CatalogueTopics,
    CatalogueVersion,
    CatalogueLicense,
    CatalogueAlso,
    CatalogueAlias,
    ContactAnnounce,
    ContactDevelopment,
    ContactRepository,
    ContactBugs,
    ContactHome,
    ContactSupport,
    ShortDesc,
    ContainerSize,
    ContainerChecksum,
    DocContainerSize,
    DocContainerChecksum,
    SrcContainerSize,
    SrcContainerChecksum,
}

/// The fields that may repeat, each line appending one string.
#[derive(Clone, Copy, Debug, PartialEq, Eq)]
pub enum ListField {
    Execute,
    PostAction,
    Depend,
}

/// The three unkeyed file groups.
#[derive(Clone, Copy, Debug, PartialEq, Eq)]
pub enum FilesKind {
    Run,
    Doc,
    Src,
}

/// One parsed field line (or file-group block) of a record.
#[derive(Debug, PartialEq, Eq)]
pub enum Field {
    Str(StrField, String),
    List(ListField, String),
    LongDesc(String),
    Relocated,
    Category(Category),
    Revision(u32),
    Files(FilesKind, BorrowedFiles),
    BinFiles(String, BorrowedFiles),
}

#[verifier::ext_equal]
pub ghost enum FieldV {
    Str(StrField, Seq<char>),
    List(ListField, Seq<char>),
    LongDesc(Seq<char>),
    Relocated,
    Category(Category),
    Revision(u32),
    Files(FilesKind, FilesV),
    BinFiles(Seq<char>, FilesV),
}

pub open spec fn field_view(f: &Field) -> FieldV {
    match f {
        Field::Str(t, v) => FieldV::Str(*t, v@),
        Field::List(t, v) => FieldV::List(*t, v@),
        Field::LongDesc(v) => FieldV::LongDesc(v@),
        Field::Relocated => FieldV::Relocated,
        Field::Category(c) => FieldV::Category(*c),
        Field::Revision(r) => FieldV::Revision(*r),
        Field::Files(k, f) => FieldV::Files(*k, f.deep_view()),
        Field::BinFiles(a, f) => FieldV::BinFiles(a@, f.deep_view()),
    }
}

// ---------------------------------------------------------------------------
// File groups: a size line followed by indented path lines.
// ---------------------------------------------------------------------------

/// The indented path lines of a file group: each starts with a single space
/// and runs to its line break; the list ends at the first line shaped
/// otherwise.
pub open spec fn spec_path_lines(s: Seq<char>, i: int) -> (Seq<Seq<char>>, int)
    decreases s.len() - i when 0 <= i <= s.len()
{
    if i < s.len() && s[i] == ' ' {
        match spec_str_tail(s, i + 1) {
            Some(cj) => if i < cj.1 && cj.1 <= s.len() {
                let r = spec_path_lines(s, cj.1);
                (seq![cj.0] + r.0, r.1)
            } else {
                (Seq::empty(), i)
            },
            None => (Seq::empty(), i),
        }
    } else {
        (Seq::empty(), i)
    }
}

/// A file group body: `size=<number>`, a line break, then its path lines.
pub open spec fn spec_files(s: Seq<char>, i: int) -> Option<(FilesV, int)> {
    if has_prefix_at(s, i, "size="@) {
        let d = i + "size="@.len();
        let e = scan_digits(s, d);
        if e > d && dec_val(s.subrange(d, e)) <= u32::MAX {
            match spec_linebreak(s, e) {
                Some(j) => {
                    let pl = spec_path_lines(s, j);
                    Some((FilesV { size: dec_val(s.subrange(d, e)) as u32, files: pl.0 }, pl.1))
                },
                None => None,
            }
        } else {
            None
        }
    } else {
        None
    }
}

/// Parses a file group body.
pub fn parse_files(s: &str, i: usize) -> (r: Option<(BorrowedFiles, usize)>)
    requires
        i <= s@.len(),
    ensures
        r is Some <==> spec_files(s@, i as int) is Some,
        r matches Some((f, j)) ==> spec_files(s@, i as int) == Some((f.deep_view(), j as int))
            && i < j <= s@.len(),
{
    let d = match try_keyword(s, i, "size=") {
        Some(d) => d,
        None => {
            return None;
        },
    };
    let e = find_scan_digits(s, d);
    proof {
        lemma_scan_while(s@, d as int, |c: char| is_digit(c));
        assert(all_digits(s@.subrange(d as int, e as int))) by {
            assert(forall|k: int| 0 <= k < e - d ==> is_digit(
                #[trigger] s@.subrange(d as int, e as int)[k],
            )) by {
                assert(forall|k: int| 0 <= k < e - d ==> s@.subrange(d as int, e as int)[k]
                    == s@[d + k]);
            }
        }
    }
    if e == d {
        return None;
    }
    let v = match parse_dec_range(s, d, e, 0xffff_ffffu64) {
        Some(v) => v,
        None => {
            return None;
        },
    };
    let k = match take_linebreak(s, e) {
        Some(k) => k,
        None => {
            return None;
        },
    };
    let mut files: Vec<String> = Vec::new();
    let mut p: usize = k;
    let n = s.unicode_len();
    loop
        invariant
            k <= p <= n == s@.len(),
            spec_path_lines(s@, k as int).0 =~= files.deep_view() + spec_path_lines(
                s@,
                p as int,
            ).0,
            spec_path_lines(s@, k as int).1 == spec_path_lines(s@, p as int).1,
        ensures
            k <= p <= s@.len(),
            spec_path_lines(s@, k as int).0 =~= files.deep_view(),
            spec_path_lines(s@, k as int).1 == p,
        decreases n - p,
    {
        if !(p < n && s.get_char(p) == ' ') {
            assert(spec_path_lines(s@, p as int).0 =~= Seq::<Seq<char>>::empty());
            assert(files.deep_view() + Seq::<Seq<char>>::empty() =~= files.deep_view());
            break;
        }
        match take_str_tail(s, p + 1) {
            None => {
                assert(spec_path_lines(s@, p as int).0 =~= Seq::<Seq<char>>::empty());
                assert(files.deep_view() + Seq::<Seq<char>>::empty() =~= files.deep_view());
                break;
            },
            Some((c, j)) => {
                proof {
                    assert(spec_path_lines(s@, p as int).0 =~= seq![c@] + spec_path_lines(
                        s@,
                        j as int,
                    ).0);
                    assert(spec_path_lines(s@, p as int).1 == spec_path_lines(s@, j as int).1);
                }
                let ghost old_files = files.deep_view();
                files.push(c);
                proof {
                    assert(files.deep_view() =~= old_files.push(c@));
                    assert(old_files.push(c@) + spec_path_lines(s@, j as int).0 =~= old_files + (
                    seq![c@] + spec_path_lines(s@, j as int).0));
                }
                p = j;
            },
        }
    }
    let f = BorrowedFiles { size: v as u32, files };
    proof {
        assert(f.deep_view() == spec_files(s@, i as int).unwrap().0);
    }
    Some((f, p))
}

} // verus!

verus! {

// ---------------------------------------------------------------------------
// Field dispatch.
// ---------------------------------------------------------------------------

/// The characters an architecture key may hold.
pub open spec fn is_arch_char(c: char) -> bool {
    ('a' <= c && c <= 'z') || ('A' <= c && c <= 'Z') || is_digit(c) || c == '_' || c == '-'
}

pub open spec fn scan_arch(s: Seq<char>, i: int) -> int {
    crate::text_util::scan_while(s, i, |c: char| is_arch_char(c))
}

fn is_arch_at(s: &str, j: usize) -> (b: bool)
    requires
        j < s@.len(),
    ensures
        b == is_arch_char(s@[j as int]),
{
    let c = s.get_char(j);
    ('a' <= c && c <= 'z') || ('A' <= c && c <= 'Z') || ('0' <= c && c <= '9') || c == '_'
        || c == '-'
}

#[verifier::loop_isolation(false)]
fn find_scan_arch(s: &str, i: usize) -> (j: usize)
    requires
        i <= s@.len(),
    ensures
        j == scan_arch(s@, i as int),
        i <= j <= s@.len(),
{
    let n = s.unicode_len();
    let ghost p = |c: char| is_arch_char(c);
    let mut j: usize = i;
    while j < n && is_arch_at(s, j)
        invariant
            i <= j <= n,
            crate::text_util::scan_while(s@, i as int, p) == crate::text_util::scan_while(
                s@,
                j as int,
                p,
            ),
        decreases n - j,
    {
        proof {
            assert(p(s@[j as int]));
            assert(crate::text_util::scan_while(s@, j as int, p) == crate::text_util::scan_while(
                s@,
                j + 1,
                p,
            ));
        }
        j = j + 1;
    }
    proof {
        if j < n {
            assert(!p(s@[j as int]));
        }
        assert(crate::text_util::scan_while(s@, j as int, p) == j);
    }
    j
}

/// A one-string field body: the rest of the line.
pub open spec fn spec_body_str(s: Seq<char>, i: int, t: StrField) -> Option<(FieldV, int)> {
    match spec_str_tail(s, i) {
        Some(cj) => Some((FieldV::Str(t, cj.0), cj.1)),
        None => None,
    }
}

/// A repeatable-list field body: the rest of the line.
pub open spec fn spec_body_list(s: Seq<char>, i: int, t: ListField) -> Option<(FieldV, int)> {
    match spec_str_tail(s, i) {
        Some(cj) => Some((FieldV::List(t, cj.0), cj.1)),
        None => None,
    }
}

/// The `category` body: one of the five category names, then a line break.
pub open spec fn spec_body_category(s: Seq<char>, i: int) -> Option<(FieldV, int)> {
    if has_prefix_at(s, i, "TLCore"@) {
        spec_cat_end(s, i + "TLCore"@.len(), Category::TLCore)
    } else if has_prefix_at(s, i, "Scheme"@) {
        spec_cat_end(s, i + "Scheme"@.len(), Category::Scheme)
    } else if has_prefix_at(s, i, "Collection"@) {
        spec_cat_end(s, i + "Collection"@.len(), Category::Collection)
    } else if has_prefix_at(s, i, "ConTeXt"@) {
        spec_cat_end(s, i + "ConTeXt"@.len(), Category::ConTeXt)
    } else if has_prefix_at(s, i, "Package"@) {
        spec_cat_end(s, i + "Package"@.len(), Category::Package)
    } else {
        None
    }
}

pub open spec fn spec_cat_end(s: Seq<char>, i: int, c: Category) -> Option<(FieldV, int)> {
    match spec_linebreak(s, i) {
        Some(j) => Some((FieldV::Category(c), j)),
        None => None,
    }
}

/// The `revision` body: a decimal number fitting the revision width, then a
/// line break.
pub open spec fn spec_body_revision(s: Seq<char>, i: int) -> Option<(FieldV, int)> {
    let e = scan_digits(s, i);
    if e > i && dec_val(s.subrange(i, e)) <= u32::MAX {
        match spec_linebreak(s, e) {
            Some(j) => Some((FieldV::Revision(dec_val(s.subrange(i, e)) as u32), j)),
            None => None,
        }
    } else {
        None
    }
}

/// The `relocated` body: nothing more than the line break (the flag line is
/// matched whole).
pub open spec fn spec_body_relocated(s: Seq<char>, i: int) -> Option<(FieldV, int)> {
    match spec_linebreak(s, i) {
        Some(j) => Some((FieldV::Relocated, j)),
        None => None,
    }
}

/// The `longdesc` body: the rest of the line, accumulated by the record.
pub open spec fn spec_body_longdesc(s: Seq<char>, i: int) -> Option<(FieldV, int)> {
    match spec_str_tail(s, i) {
        Some(cj) => Some((FieldV::LongDesc(cj.0), cj.1)),
        None => None,
    }
}

pub open spec fn spec_body_files(s: Seq<char>, i: int, k: FilesKind) -> Option<(FieldV, int)> {
    match spec_files(s, i) {
        Some(fj) => Some((FieldV::Files(k, fj.0), fj.1)),
        None => None,
    }
}

/// The `binfiles` body: an `arch=` key of architecture characters, a space,
/// then a file group.
pub open spec fn spec_body_binfiles(s: Seq<char>, i: int) -> Option<(FieldV, int)> {
    if has_prefix_at(s, i, "arch="@) {
        let a = i + "arch="@.len();
        let e = scan_arch(s, a);
        if e > a && e < s.len() && s[e] == ' ' {
            match spec_files(s, e + 1) {
                Some(fj) => Some((FieldV::BinFiles(s.subrange(a, e), fj.0), fj.1)),
                None => None,
            }
        } else {
            None
        }
    } else {
        None
    }
}

/// One field of a record: the line's keyword picks the field, and the rest
/// of the line (or the file-group block) is its value. The keywords are
/// mutually exclusive; a line fitting none of them is no field.
pub open spec fn spec_parse_field(s: Seq<char>, i: int) -> Option<(FieldV, int)> {
    if has_prefix_at(s, i, "category "@) {
        spec_body_category(s, i + "category "@.len())
    } else if has_prefix_at(s, i, "catalogue "@) {
        spec_body_str(s, i + "catalogue "@.len(), StrField::Catalogue)
    } else if has_prefix_at(s, i, "catalogue-ctan "@) {
        spec_body_str(s, i + "catalogue-ctan "@.len(), StrField::CatalogueCtan)
    } else if has_prefix_at(s, i, "catalogue-topics "@) {
        spec_body_str(s, i + "catalogue-topics "@.len(), StrField::CatalogueTopics)
    } else if has_prefix_at(s, i, "catalogue-version "@) {
        spec_body_str(s, i + "catalogue-version "@.len(), StrField::CatalogueVersion)
    } else if has_prefix_at(s, i, "catalogue-license "@) {
        spec_body_str(s, i + "catalogue-license "@.len(), StrField::CatalogueLicense)
    } else if has_prefix_at(s, i, "catalogue-also "@) {
        spec_body_str(s, i + "catalogue-also "@.len(), StrField::CatalogueAlso)
    } else if has_prefix_at(s, i, "catalogue-alias "@) {
        spec_body_str(s, i + "catalogue-alias "@.len(), StrField::CatalogueAlias)
    } else if has_prefix_at(s, i, "catalogue-contact-announce "@) {
        spec_body_str(s, i + "catalogue-contact-announce "@.len(), StrField::ContactAnnounce)
    } else if has_prefix_at(s, i, "catalogue-contact-development "@) {
        spec_body_str(s, i + "catalogue-contact-development "@.len(), StrField::ContactDevelopment)
    } else if has_prefix_at(s, i, "catalogue-contact-repository "@) {
        spec_body_str(s, i + "catalogue-contact-repository "@.len(), StrField::ContactRepository)
    } else if has_prefix_at(s, i, "catalogue-contact-bugs "@) {
        spec_body_str(s, i + "catalogue-contact-bugs "@.len(), StrField::ContactBugs)
    } else if has_prefix_at(s, i, "catalogue-contact-home "@) {
        spec_body_str(s, i + "catalogue-contact-home "@.len(), StrField::ContactHome)
    } else if has_prefix_at(s, i, "catalogue-contact-support "@) {
        spec_body_str(s, i + "catalogue-contact-support "@.len(), StrField::ContactSupport)
    } else if has_prefix_at(s, i, "execute "@) {
        spec_body_list(s, i + "execute "@.len(), ListField::Execute)
    } else if has_prefix_at(s, i, "postaction "@) {
        spec_body_list(s, i + "postaction "@.len(), ListField::PostAction)
    } else if has_prefix_at(s, i, "relocated 1"@) {
        spec_body_relocated(s, i + "relocated 1"@.len())
    } else if has_prefix_at(s, i, "revision "@) {
        spec_body_revision(s, i + "revision "@.len())
    } else if has_prefix_at(s, i, "shortdesc "@) {
        spec_body_str(s, i + "shortdesc "@.len(), StrField::ShortDesc)
    } else if has_prefix_at(s, i, "longdesc "@) {
        spec_body_longdesc(s, i + "longdesc "@.len())
    } else if has_prefix_at(s, i, "depend "@) {
        spec_body_list(s, i + "depend "@.len(), ListField::Depend)
    } else if has_prefix_at(s, i, "runfiles "@) {
        spec_body_files(s, i + "runfiles "@.len(), FilesKind::Run)
    } else if has_prefix_at(s, i, "binfiles "@) {
        spec_body_binfiles(s, i + "binfiles "@.len())
    } else if has_prefix_at(s, i, "docfiles "@) {
        spec_body_files(s, i + "docfiles "@.len(), FilesKind::Doc)
    } else if has_prefix_at(s, i, "srcfiles "@) {
        spec_body_files(s, i + "srcfiles "@.len(), FilesKind::Src)
    } else if has_prefix_at(s, i, "containersize "@) {
        spec_body_str(s, i + "containersize "@.len(), StrField::ContainerSize)
    } else if has_prefix_at(s, i, "containerchecksum "@) {
        spec_body_str(s, i + "containerchecksum "@.len(), StrField::ContainerChecksum)
    } else if has_prefix_at(s, i, "doccontainersize "@) {
        spec_body_str(s, i + "doccontainersize "@.len(), StrField::DocContainerSize)
    } else if has_prefix_at(s, i, "doccontainerchecksum "@) {
        spec_body_str(s, i + "doccontainerchecksum "@.len(), StrField::DocContainerChecksum)
    } else if has_prefix_at(s, i, "srccontainersize "@) {
        spec_body_str(s, i + "srccontainersize "@.len(), StrField::SrcContainerSize)
    } else if has_prefix_at(s, i, "srccontainerchecksum "@) {
        spec_body_str(s, i + "srccontainerchecksum "@.len(), StrField::SrcContainerChecksum)
    } else {
        None
    }
}

} // verus!

verus! {

fn field_str_tail(s: &str, j: usize, t: StrField) -> (r: Option<(Field, usize)>)
    requires
        j <= s@.len(),
    ensures
        r is Some <==> spec_body_str(s@, j as int, t) is Some,
        r matches Some((f, p)) ==> spec_body_str(s@, j as int, t) == Some(
            (field_view(&f), p as int),
        ) && j < p <= s@.len(),
{
    match take_str_tail(s, j) {
        Some((c, p)) => Some((Field::Str(t, c), p)),
        None => None,
    }
}

fn field_list_tail(s: &str, j: usize, t: ListField) -> (r: Option<(Field, usize)>)
    requires
        j <= s@.len(),
    ensures
        r is Some <==> spec_body_list(s@, j as int, t) is Some,
        r matches Some((f, p)) ==> spec_body_list(s@, j as int, t) == Some(
            (field_view(&f), p as int),
        ) && j < p <= s@.len(),
{
    match take_str_tail(s, j) {
        Some((c, p)) => Some((Field::List(t, c), p)),
        None => None,
    }
}

fn field_cat_end(s: &str, k: usize, c: Category) -> (r: Option<(Field, usize)>)
    requires
        k <= s@.len(),
    ensures
        r is Some <==> spec_cat_end(s@, k as int, c) is Some,
        r matches Some((f, p)) ==> spec_cat_end(s@, k as int, c) == Some(
            (field_view(&f), p as int),
        ) && k < p <= s@.len(),
{
    match take_linebreak(s, k) {
        Some(p) => Some((Field::Category(c), p)),
        None => None,
    }
}

fn field_category(s: &str, j: usize) -> (r: Option<(Field, usize)>)
    requires
        j <= s@.len(),
    ensures
        r is Some <==> spec_body_category(s@, j as int) is Some,
        r matches Some((f, p)) ==> spec_body_category(s@, j as int) == Some(
            (field_view(&f), p as int),
        ) && j < p <= s@.len(),
{
    if let Some(k) = try_keyword(s, j, "TLCore") {
        return field_cat_end(s, k, Category::TLCore);
    }
    if let Some(k) = try_keyword(s, j, "Scheme") {
        return field_cat_end(s, k, Category::Scheme);
    }
    if let Some(k) = try_keyword(s, j, "Collection") {
        return field_cat_end(s, k, Category::Collection);
    }
    if let Some(k) = try_keyword(s, j, "ConTeXt") {
        return field_cat_end(s, k, Category::ConTeXt);
    }
    if let Some(k) = try_keyword(s, j, "Package") {
        return field_cat_end(s, k, Category::Package);
    }
    None
}

fn field_revision(s: &str, j: usize) -> (r: Option<(Field, usize)>)
    requires
        j <= s@.len(),
    ensures
        r is Some <==> spec_body_revision(s@, j as int) is Some,
        r matches Some((f, p)) ==> spec_body_revision(s@, j as int) == Some(
            (field_view(&f), p as int),
        ) && j < p <= s@.len(),
{
    let e = find_scan_digits(s, j);
    proof {
        lemma_scan_while(s@, j as int, |c: char| is_digit(c));
        assert(all_digits(s@.subrange(j as int, e as int))) by {
            assert(forall|k: int| 0 <= k < e - j ==> s@.subrange(j as int, e as int)[k] == s@[j
                + k]);
        }
    }
    if e == j {
        return None;
    }
    let v = match parse_dec_range(s, j, e, 0xffff_ffffu64) {
        Some(v) => v,
        None => {
            return None;
        },
    };
    match take_linebreak(s, e) {
        Some(p) => Some((Field::Revision(v as u32), p)),
        None => None,
    }
}

fn field_binfiles(s: &str, j: usize) -> (r: Option<(Field, usize)>)
    requires
        j <= s@.len(),
    ensures
        r is Some <==> spec_body_binfiles(s@, j as int) is Some,
        r matches Some((f, p)) ==> spec_body_binfiles(s@, j as int) == Some(
            (field_view(&f), p as int),
        ) && j < p <= s@.len(),
{
    let a = match try_keyword(s, j, "arch=") {
        Some(a) => a,
        None => {
            return None;
        },
    };
    let e = find_scan_arch(s, a);
    let n = s.unicode_len();
    if !(e > a && e < n && s.get_char(e) == ' ') {
        return None;
    }
    let arch = s.substring_char(a, e).to_owned();
    match parse_files(s, e + 1) {
        Some((f, p)) => Some((Field::BinFiles(arch, f), p)),
        None => None,
    }
}

fn field_files(s: &str, j: usize, k: FilesKind) -> (r: Option<(Field, usize)>)
    requires
        j <= s@.len(),
    ensures
        r is Some <==> spec_body_files(s@, j as int, k) is Some,
        r matches Some((f, p)) ==> spec_body_files(s@, j as int, k) == Some(
            (field_view(&f), p as int),
        ) && j < p <= s@.len(),
{
    match parse_files(s, j) {
        Some((f, p)) => Some((Field::Files(k, f), p)),
        None => None,
    }
}

/// Parses one field of a record, if the line at `i` opens one.
#[verifier::rlimit(30)]
pub fn parse_field(s: &str, i: usize) -> (r: Option<(Field, usize)>)
    requires
        i <= s@.len(),
    ensures
        r is Some <==> spec_parse_field(s@, i as int) is Some,
        r matches Some((f, j)) ==> spec_parse_field(s@, i as int) == Some(
            (field_view(&f), j as int),
        ) && i < j <= s@.len(),
{
    if let Some(j) = try_keyword(s, i, "category ") {
        return field_category(s, j);
    }
    if let Some(j) = try_keyword(s, i, "catalogue ") {
        return field_str_tail(s, j, StrField::Catalogue);
    }
    if let Some(j) = try_keyword(s, i, "catalogue-ctan ") {
        return field_str_tail(s, j, StrField::CatalogueCtan);
    }
    if let Some(j) = try_keyword(s, i, "catalogue-topics ") {
        return field_str_tail(s, j, StrField::CatalogueTopics);
    }
    if let Some(j) = try_keyword(s, i, "catalogue-version ") {
        return field_str_tail(s, j, StrField::CatalogueVersion);
    }
    if let Some(j) = try_keyword(s, i, "catalogue-license ") {
        return field_str_tail(s, j, StrField::CatalogueLicense);
    }
    if let Some(j) = try_keyword(s, i, "catalogue-also ") {
        return field_str_tail(s, j, StrField::CatalogueAlso);
    }
    if let Some(j) = try_keyword(s, i, "catalogue-alias ") {
        return field_str_tail(s, j, StrField::CatalogueAlias);
    }
    if let Some(j) = try_keyword(s, i, "catalogue-contact-announce ") {
        return field_str_tail(s, j, StrField::ContactAnnounce);
    }
    if let Some(j) = try_keyword(s, i, "catalogue-contact-development ") {
        return field_str_tail(s, j, StrField::ContactDevelopment);
    }
    if let Some(j) = try_keyword(s, i, "catalogue-contact-repository ") {
        return field_str_tail(s, j, StrField::ContactRepository);
    }
    if let Some(j) = try_keyword(s, i, "catalogue-contact-bugs ") {
        return field_str_tail(s, j, StrField::ContactBugs);
    }
    if let Some(j) = try_keyword(s, i, "catalogue-contact-home ") {
        return field_str_tail(s, j, StrField::ContactHome);
    }
    if let Some(j) = try_keyword(s, i, "catalogue-contact-support ") {
        return field_str_tail(s, j, StrField::ContactSupport);
    }
    if let Some(j) = try_keyword(s, i, "execute ") {
        return field_list_tail(s, j, ListField::Execute);
    }
    if let Some(j) = try_keyword(s, i, "postaction ") {
        return field_list_tail(s, j, ListField::PostAction);
    }
    if let Some(j) = try_keyword(s, i, "relocated 1") {
        return match take_linebreak(s, j) {
            Some(p) => Some((Field::Relocated, p)),
            None => None,
        };
    }
    if let Some(j) = try_keyword(s, i, "revision ") {
        return field_revision(s, j);
    }
    if let Some(j) = try_keyword(s, i, "shortdesc ") {
        return field_str_tail(s, j, StrField::ShortDesc);
    }
    if let Some(j) = try_keyword(s, i, "longdesc ") {
        return match take_str_tail(s, j) {
            Some((c, p)) => Some((Field::LongDesc(c), p)),
            None => None,
        };
    }
    if let Some(j) = try_keyword(s, i, "depend ") {
        return field_list_tail(s, j, ListField::Depend);
    }
    if let Some(j) = try_keyword(s, i, "runfiles ") {
        return field_files(s, j, FilesKind::Run);
    }
    if let Some(j) = try_keyword(s, i, "binfiles ") {
        return field_binfiles(s, j);
    }
    if let Some(j) = try_keyword(s, i, "docfiles ") {
        return field_files(s, j, FilesKind::Doc);
    }
    if let Some(j) = try_keyword(s, i, "srcfiles ") {
        return field_files(s, j, FilesKind::Src);
    }
    if let Some(j) = try_keyword(s, i, "containersize ") {
        return field_str_tail(s, j, StrField::ContainerSize);
    }
    if let Some(j) = try_keyword(s, i, "containerchecksum ") {
        return field_str_tail(s, j, StrField::ContainerChecksum);
    }
    if let Some(j) = try_keyword(s, i, "doccontainersize ") {
        return field_str_tail(s, j, StrField::DocContainerSize);
    }
    if let Some(j) = try_keyword(s, i, "doccontainerchecksum ") {
        return field_str_tail(s, j, StrField::DocContainerChecksum);
    }
    if let Some(j) = try_keyword(s, i, "srccontainersize ") {
        return field_str_tail(s, j, StrField::SrcContainerSize);
    }
    if let Some(j) = try_keyword(s, i, "srccontainerchecksum ") {
        return field_str_tail(s, j, StrField::SrcContainerChecksum);
    }
    None
}

} // verus!

verus! {

// ---------------------------------------------------------------------------
// Record accumulation: fields are folded into a partial record, duplicate
// one-shot fields failing the whole record.
// ---------------------------------------------------------------------------

#[verifier::ext_equal]
pub ghost struct AccV {
    pub cat_name: Option<Seq<char>>,
    pub cat_alias: Option<Seq<char>>,
    pub cat_also: Option<Seq<char>>,
    pub cat_announce: Option<Seq<char>>,
    pub cat_bugs: Option<Seq<char>>,
    pub cat_development: Option<Seq<char>>,
    pub cat_home: Option<Seq<char>>,
    pub cat_repository: Option<Seq<char>>,
    pub cat_support: Option<Seq<char>>,
    pub cat_ctan: Option<Seq<char>>,
    pub cat_license: Option<Seq<char>>,
    pub cat_topics: Option<Seq<char>>,
    pub cat_version: Option<Seq<char>>,
    pub category: Option<Category>,
    pub container_checksum: Option<Seq<char>>,
    pub container_size: Option<Seq<char>>,
    pub depend: Seq<Seq<char>>,
    pub execute: Seq<Seq<char>>,
    pub long_desc: Option<Seq<char>>,
    pub post_action: Seq<Seq<char>>,
    pub relocated: bool,
    pub revision: Option<u32>,
    pub short_desc: Option<Seq<char>>,
    pub bin_files: Seq<(Seq<char>, FilesV)>,
    pub doc_container_checksum: Option<Seq<char>>,
    pub doc_container_size: Option<Seq<char>>,
    pub doc_files: Option<FilesV>,
    pub run_files: Option<FilesV>,
    pub src_container_checksum: Option<Seq<char>>,
    pub src_container_size: Option<Seq<char>>,
    pub src_files: Option<FilesV>,
}

pub open spec fn init_acc() -> AccV {
    AccV {
        cat_name: None,
        cat_alias: None,
        cat_also: None,
        cat_announce: None,
        cat_bugs: None,
        cat_development: None,
        cat_home: None,
        cat_repository: None,
        cat_support: None,
        cat_ctan: None,
        cat_license: None,
        cat_topics: None,
        cat_version: None,
        category: None,
        container_checksum: None,
        container_size: None,
        depend: Seq::empty(),
        execute: Seq::empty(),
        long_desc: None,
        post_action: Seq::empty(),
        relocated: false,
        revision: None,
        short_desc: None,
        bin_files: Seq::empty(),
        doc_container_checksum: None,
        doc_container_size: None,
        doc_files: None,
        run_files: None,
        src_container_checksum: None,
        src_container_size: None,
        src_files: None,
    }
}

/// Position of the first pair in `s` keyed by `k`.
pub open spec fn bin_key_index(s: Seq<(Seq<char>, FilesV)>, k: Seq<char>) -> Option<int>
    decreases s.len(),
{
    if s.len() == 0 {
        None
    } else if s[0].0 == k {
        Some(0int)
    } else {
        match bin_key_index(s.skip(1), k) {
            Some(i) => Some(i + 1),
            None => None,
        }
    }
}

/// Stores a binary file group under its architecture key, replacing any
/// earlier group with the same key.
pub open spec fn bin_set(s: Seq<(Seq<char>, FilesV)>, k: Seq<char>, v: FilesV) -> Seq<
    (Seq<char>, FilesV),
> {
    match bin_key_index(s, k) {
        Some(i) => s.update(i, (k, v)),
        None => s.push((k, v)),
    }
}

pub proof fn lemma_bin_key_index(s: Seq<(Seq<char>, FilesV)>, k: Seq<char>)
    ensures
        match bin_key_index(s, k) {
            Some(i) => 0 <= i < s.len() && s[i].0 == k && forall|j: int|
                0 <= j < i ==> (#[trigger] s[j]).0 != k,
            None => forall|j: int| 0 <= j < s.len() ==> (#[trigger] s[j]).0 != k,
        },
    decreases s.len(),
{
    if s.len() > 0 && s[0].0 != k {
        lemma_bin_key_index(s.skip(1), k);
        assert(forall|j: int| 1 <= j < s.len() ==> s[j] == #[trigger] s.skip(1)[j - 1]);
        match bin_key_index(s.skip(1), k) {
            Some(i) => {
                assert(s[i + 1] == s.skip(1)[i]);
                assert(forall|j: int| 1 <= j < i + 1 ==> (#[trigger] s[j]).0 == s.skip(1)[j - 1].0);
            },
            None => {
                assert(forall|j: int| 1 <= j < s.len() ==> (#[trigger] s[j]).0 == s.skip(1)[j
                    - 1].0);
            },
        }
    }
}

/// Folds one field into the partial record; `None` marks a duplicated
/// one-shot field, which fails the record.
pub open spec fn apply_field(acc: AccV, f: FieldV) -> Option<AccV> {
    match f {
        FieldV::Str(t, v) => match t {
            StrField::Catalogue => if acc.cat_name is Some {
                None
            } else {
                Some(AccV { cat_name: Some(v), ..acc })
            },
            StrField::CatalogueCtan => if acc.cat_ctan is Some {
                None
            } else {
                Some(AccV { cat_ctan: Some(v), ..acc })
            },
            StrField::CatalogueTopics => if acc.cat_topics is Some {
                None
            } else {
                Some(AccV { cat_topics: Some(v), ..acc })
            },
            StrField::CatalogueVersion => if acc.cat_version is Some {
                None
            } else {
                Some(AccV { cat_version: Some(v), ..acc })
            },
            StrField::CatalogueLicense => if acc.cat_license is Some {
                None
            } else {
                Some(AccV { cat_license: Some(v), ..acc })
            },
            StrField::CatalogueAlso => if acc.cat_also is Some {
                None
            } else {
                Some(AccV { cat_also: Some(v), ..acc })
            },
            StrField::CatalogueAlias => if acc.cat_alias is Some {
                None
            } else {
                Some(AccV { cat_alias: Some(v), ..acc })
            },
            StrField::ContactAnnounce => if acc.cat_announce is Some {
                None
            } else {
                Some(AccV { cat_announce: Some(v), ..acc })
            },
            StrField::ContactDevelopment => if acc.cat_development is Some {
                None
            } else {
                Some(AccV { cat_development: Some(v), ..acc })
            },
            StrField::ContactRepository => if acc.cat_repository is Some {
                None
            } else {
                Some(AccV { cat_repository: Some(v), ..acc })
            },
            StrField::ContactBugs => if acc.cat_bugs is Some {
                None
            } else {
                Some(AccV { cat_bugs: Some(v), ..acc })
            },
            StrField::ContactHome => if acc.cat_home is Some {
                None
            } else {
                Some(AccV { cat_home: Some(v), ..acc })
            },
            StrField::ContactSupport => if acc.cat_support is Some {
                None
            } else {
                Some(AccV { cat_support: Some(v), ..acc })
            },
            StrField::ShortDesc => if acc.short_desc is Some {
                None
            } else {
                Some(AccV { short_desc: Some(v), ..acc })
            },
            StrField::ContainerSize => if acc.container_size is Some {
                None
            } else {
                Some(AccV { container_size: Some(v), ..acc })
            },
            StrField::ContainerChecksum => if acc.container_checksum is Some {
                None
            } else {
                Some(AccV { container_checksum: Some(v), ..acc })
            },
            StrField::DocContainerSize => if acc.doc_container_size is Some {
                None
            } else {
                Some(AccV { doc_container_size: Some(v), ..acc })
            },
            StrField::DocContainerChecksum => if acc.doc_container_checksum is Some {
                None
            } else {
                Some(AccV { doc_container_checksum: Some(v), ..acc })
            },
            StrField::SrcContainerSize => if acc.src_container_size is Some {
                None
            } else {
                Some(AccV { src_container_size: Some(v), ..acc })
            },
            StrField::SrcContainerChecksum => if acc.src_container_checksum is Some {
                None
            } else {
                Some(AccV { src_container_checksum: Some(v), ..acc })
            },
        },
        FieldV::List(t, v) => match t {
            ListField::Depend => Some(AccV { depend: acc.depend.push(v), ..acc }),
            ListField::Execute => Some(AccV { execute: acc.execute.push(v), ..acc }),
            ListField::PostAction => Some(AccV { post_action: acc.post_action.push(v), ..acc }),
        },
        FieldV::LongDesc(v) => Some(
            AccV {
                long_desc: match acc.long_desc {
                    None => Some(v),
                    Some(e) => Some(e + " "@ + v),
                },
                ..acc
            },
        ),
        FieldV::Relocated => Some(AccV { relocated: true, ..acc }),
        FieldV::Category(c) => if acc.category is Some {
            None
        } else {
            Some(AccV { category: Some(c), ..acc })
        },
        FieldV::Revision(r) => if acc.revision is Some {
            None
        } else {
            Some(AccV { revision: Some(r), ..acc })
        },
        FieldV::Files(k, fv) => match k {
            FilesKind::Run => if acc.run_files is Some {
                None
            } else {
                Some(AccV { run_files: Some(fv), ..acc })
            },
            FilesKind::Doc => if acc.doc_files is Some {
                None
            } else {
                Some(AccV { doc_files: Some(fv), ..acc })
            },
            FilesKind::Src => if acc.src_files is Some {
                None
            } else {
                Some(AccV { src_files: Some(fv), ..acc })
            },
        },
        FieldV::BinFiles(a, fv) => Some(AccV { bin_files: bin_set(acc.bin_files, a, fv), ..acc }),
    }
}

} // verus!

verus! {

/// The partial record a parse builds up, one field line at a time.
pub struct EntryAcc {
    pub cat_name: Option<String>,
    pub cat_alias: Option<String>,
    pub cat_also: Option<String>,
    pub cat_announce: Option<String>,
    pub cat_bugs: Option<String>,
    pub cat_development: Option<String>,
    pub cat_home: Option<String>,
    pub cat_repository: Option<String>,
    pub cat_support: Option<String>,
    pub cat_ctan: Option<String>,
    pub cat_license: Option<String>,
    pub cat_topics: Option<String>,
    pub cat_version: Option<String>,
    pub category: Option<Category>,
    pub container_checksum: Option<String>,
    pub container_size: Option<String>,
    pub depend: Vec<String>,
    pub execute: Vec<String>,
    pub long_desc: Option<String>,
    pub post_action: Vec<String>,
    pub relocated: bool,
    pub revision: Option<u32>,
    pub short_desc: Option<String>,
    pub bin_files: Vec<(String, BorrowedFiles)>,
    pub doc_container_checksum: Option<String>,
    pub doc_container_size: Option<String>,
    pub doc_files: Option<BorrowedFiles>,
    pub run_files: Option<BorrowedFiles>,
    pub src_container_checksum: Option<String>,
    pub src_container_size: Option<String>,
    pub src_files: Option<BorrowedFiles>,
}

impl DeepView for EntryAcc {
    type V = AccV;

    open spec fn deep_view(&self) -> AccV {
        AccV {
            cat_name: self.cat_name.deep_view(),
            cat_alias: self.cat_alias.deep_view(),
            cat_also: self.cat_also.deep_view(),
            cat_announce: self.cat_announce.deep_view(),
            cat_bugs: self.cat_bugs.deep_view(),
            cat_development: self.cat_development.deep_view(),
            cat_home: self.cat_home.deep_view(),
            cat_repository: self.cat_repository.deep_view(),
            cat_support: self.cat_support.deep_view(),
            cat_ctan: self.cat_ctan.deep_view(),
            cat_license: self.cat_license.deep_view(),
            cat_topics: self.cat_topics.deep_view(),
            cat_version: self.cat_version.deep_view(),
            category: self.category.deep_view(),
            container_checksum: self.container_checksum.deep_view(),
            container_size: self.container_size.deep_view(),
            depend: self.depend.deep_view(),
            execute: self.execute.deep_view(),
            long_desc: self.long_desc.deep_view(),
            post_action: self.post_action.deep_view(),
            relocated: self.relocated,
            revision: self.revision,
            short_desc: self.short_desc.deep_view(),
            bin_files: self.bin_files.deep_view(),
            doc_container_checksum: self.doc_container_checksum.deep_view(),
            doc_container_size: self.doc_container_size.deep_view(),
            doc_files: self.doc_files.deep_view(),
            run_files: self.run_files.deep_view(),
            src_container_checksum: self.src_container_checksum.deep_view(),
            src_container_size: self.src_container_size.deep_view(),
            src_files: self.src_files.deep_view(),
        }
    }
}

impl EntryAcc {
    pub fn new() -> (r: EntryAcc)
        ensures
            r.deep_view() == init_acc(),
    {
        let r = EntryAcc {
            cat_name: None,
            cat_alias: None,
            cat_also: None,
            cat_announce: None,
            cat_bugs: None,
            cat_development: None,
            cat_home: None,
            cat_repository: None,
            cat_support: None,
            cat_ctan: None,
            cat_license: None,
            cat_topics: None,
            cat_version: None,
            category: None,
            container_checksum: None,
            container_size: None,
            depend: Vec::new(),
            execute: Vec::new(),
            long_desc: None,
            post_action: Vec::new(),
            relocated: false,
            revision: None,
            short_desc: None,
            bin_files: Vec::new(),
            doc_container_checksum: None,
            doc_container_size: None,
            doc_files: None,
            run_files: None,
            src_container_checksum: None,
            src_container_size: None,
            src_files: None,
        };
        proof {
            assert(r.deep_view() =~= init_acc());
        }
        r
    }
}

/// Replaces the group under key `a` or appends a new pair, matching `bin_set`.
fn store_bin_files(bin: &mut Vec<(String, BorrowedFiles)>, a: String, fv: BorrowedFiles)
    ensures
        final(bin).deep_view() == bin_set(old(bin).deep_view(), a@, fv.deep_view()),
{
    let n = bin.len();
    let mut i: usize = 0;
    while i < n
        invariant
            i <= n == bin.len(),
            bin@ == old(bin)@,
            forall|j: int| 0 <= j < i ==> (#[trigger] bin.deep_view()[j]).0 != a@,
        decreases n - i,
    {
        proof {
            assert(bin.deep_view()[i as int] == bin@[i as int].deep_view());
        }
        if crate::text_util::str_equal(bin[i].0.as_str(), a.as_str()) {
            let ghost old_view = bin.deep_view();
            proof {
                assert(old_view[i as int].0 == a@);
                lemma_bin_key_index(old_view, a@);
                match bin_key_index(old_view, a@) {
                    Some(i2) => {
                        if i2 < i {
                            assert(old_view[i2].0 != a@);
                        }
                        if i2 > i {
                            assert(old_view[i as int].0 != a@);
                        }
                        assert(i2 == i);
                    },
                    None => {
                        assert(old_view[i as int].0 != a@);
                    },
                }
            }
            bin.set(i, (a, fv));
            proof {
                assert(bin.deep_view() =~= old_view.update(i as int, (a@, fv.deep_view())));
            }
            return;
        }
        i = i + 1;
    }
    let ghost old_view = bin.deep_view();
    proof {
        lemma_bin_key_index(old_view, a@);
        if let Some(i2) = bin_key_index(old_view, a@) {
            assert(old_view[i2].0 != a@);
        }
    }
    bin.push((a, fv));
    proof {
        assert(bin.deep_view() =~= old_view.push((a@, fv.deep_view())));
    }
}

/// Folds one parsed field into the accumulator; `false` reports a duplicated
/// one-shot field.
#[verifier::rlimit(50)]
pub fn apply_field_exec(acc: &mut EntryAcc, f: Field) -> (ok: bool)
    ensures
        match apply_field(old(acc).deep_view(), field_view(&f)) {
            Some(a) => ok && final(acc).deep_view() == a,
            None => !ok,
        },
{
    let ghost a0 = old(acc).deep_view();
    let ghost fv = field_view(&f);
    match f {
        Field::Str(t, v) => {
            match t {
                StrField::Catalogue => {
                    if acc.cat_name.is_some() {
                        return false;
                    }
                    acc.cat_name = Some(v);
                },
                StrField::CatalogueCtan => {
                    if acc.cat_ctan.is_some() {
                        return false;
                    }
                    acc.cat_ctan = Some(v);
                },
                StrField::CatalogueTopics => {
                    if acc.cat_topics.is_some() {
                        return false;
                    }
                    acc.cat_topics = Some(v);
                },
                StrField::CatalogueVersion => {
                    if acc.cat_version.is_some() {
                        return false;
                    }
                    acc.cat_version = Some(v);
                },
                StrField::CatalogueLicense => {
                    if acc.cat_license.is_some() {
                        return false;
                    }
                    acc.cat_license = Some(v);
                },
                StrField::CatalogueAlso => {
                    if acc.cat_also.is_some() {
                        return false;
                    }
                    acc.cat_also = Some(v);
                },
                StrField::CatalogueAlias => {
                    if acc.cat_alias.is_some() {
                        return false;
                    }
                    acc.cat_alias = Some(v);
                },
                StrField::ContactAnnounce => {
                    if acc.cat_announce.is_some() {
                        return false;
                    }
                    acc.cat_announce = Some(v);
                },
                StrField::ContactDevelopment => {
                    if acc.cat_development.is_some() {
                        return false;
                    }
                    acc.cat_development = Some(v);
                },
                StrField::ContactRepository => {
                    if acc.cat_repository.is_some() {
                        return false;
                    }
                    acc.cat_repository = Some(v);
                },
                StrField::ContactBugs => {
                    if acc.cat_bugs.is_some() {
                        return false;
                    }
                    acc.cat_bugs = Some(v);
                },
                StrField::ContactHome => {
                    if acc.cat_home.is_some() {
                        return false;
                    }
                    acc.cat_home = Some(v);
                },
                StrField::ContactSupport => {
                    if acc.cat_support.is_some() {
                        return false;
                    }
                    acc.cat_support = Some(v);
                },
                StrField::ShortDesc => {
                    if acc.short_desc.is_some() {
                        return false;
                    }
                    acc.short_desc = Some(v);
                },
                StrField::ContainerSize => {
                    if acc.container_size.is_some() {
                        return false;
                    }
                    acc.container_size = Some(v);
                },
                StrField::ContainerChecksum => {
                    if acc.container_checksum.is_some() {
                        return false;
                    }
                    acc.container_checksum = Some(v);
                },
                StrField::DocContainerSize => {
                    if acc.doc_container_size.is_some() {
                        return false;
                    }
                    acc.doc_container_size = Some(v);
                },
                StrField::DocContainerChecksum => {
                    if acc.doc_container_checksum.is_some() {
                        return false;
                    }
                    acc.doc_container_checksum = Some(v);
                },
                StrField::SrcContainerSize => {
                    if acc.src_container_size.is_some() {
                        return false;
                    }
                    acc.src_container_size = Some(v);
                },
                StrField::SrcContainerChecksum => {
                    if acc.src_container_checksum.is_some() {
                        return false;
                    }
                    acc.src_container_checksum = Some(v);
                },
            }
            proof {
                assert(acc.deep_view() =~= apply_field(a0, fv).unwrap());
            }
            true
        },
        Field::List(t, v) => {
            match t {
                ListField::Depend => {
                    acc.depend.push(v);
                    proof {
                        assert(acc.deep_view().depend =~= a0.depend.push(fv->List_1));
                    }
                },
                ListField::Execute => {
                    acc.execute.push(v);
                    proof {
                        assert(acc.deep_view().execute =~= a0.execute.push(fv->List_1));
                    }
                },
                ListField::PostAction => {
                    acc.post_action.push(v);
                    proof {
                        assert(acc.deep_view().post_action =~= a0.post_action.push(fv->List_1));
                    }
                },
            }
            proof {
                assert(acc.deep_view() =~= apply_field(a0, fv).unwrap());
            }
            true
        },
        Field::LongDesc(v) => {
            match acc.long_desc.take() {
                None => {
                    acc.long_desc = Some(v);
                },
                Some(mut e) => {
                    e.append(" ");
                    e.append(v.as_str());
                    acc.long_desc = Some(e);
                },
            }
            proof {
                assert(acc.deep_view() =~= apply_field(a0, fv).unwrap());
            }
            true
        },
        Field::Relocated => {
            acc.relocated = true;
            proof {
                assert(acc.deep_view() =~= apply_field(a0, fv).unwrap());
            }
            true
        },
        Field::Category(c) => {
            if acc.category.is_some() {
                return false;
            }
            acc.category = Some(c);
            proof {
                assert(acc.deep_view() =~= apply_field(a0, fv).unwrap());
            }
            true
        },
        Field::Revision(r) => {
            if acc.revision.is_some() {
                return false;
            }
            acc.revision = Some(r);
            proof {
                assert(acc.deep_view() =~= apply_field(a0, fv).unwrap());
            }
            true
        },
        Field::Files(k, fvs) => {
            match k {
                FilesKind::Run => {
                    if acc.run_files.is_some() {
                        return false;
                    }
                    acc.run_files = Some(fvs);
                },
                FilesKind::Doc => {
                    if acc.doc_files.is_some() {
                        return false;
                    }
                    acc.doc_files = Some(fvs);
                },
                FilesKind::Src => {
                    if acc.src_files.is_some() {
                        return false;
                    }
                    acc.src_files = Some(fvs);
                },
            }
            proof {
                assert(acc.deep_view() =~= apply_field(a0, fv).unwrap());
            }
            true
        },
        Field::BinFiles(a, fvs) => {
            store_bin_files(&mut acc.bin_files, a, fvs);
            proof {
                assert(acc.deep_view() =~= apply_field(a0, fv).unwrap());
            }
            true
        },
    }
}

} // verus!

verus! {

// ---------------------------------------------------------------------------
// Whole records and record sequences.
// ---------------------------------------------------------------------------

/// Folds field after field into `acc` until a blank line or the end of the
/// input closes the record.
pub open spec fn spec_fields(s: Seq<char>, i: int, acc: AccV) -> Option<(AccV, int)>
    decreases s.len() - i when 0 <= i <= s.len()
{
    match spec_linebreak(s, i) {
        Some(j) => Some((acc, j)),
        None => if i >= s.len() {
            Some((acc, i))
        } else {
            match spec_parse_field(s, i) {
                None => None,
                Some(fj) => match apply_field(acc, fj.0) {
                    None => None,
                    Some(acc2) => if i < fj.1 && fj.1 <= s.len() {
                        spec_fields(s, fj.1, acc2)
                    } else {
                        None
                    },
                },
            }
        },
    }
}

/// Builds the finished record from the accumulator, its name, and the two
/// required fields.
pub open spec fn entry_of(name: Seq<char>, acc: AccV, c: Category, r: u32) -> EntryV {
    EntryV {
        name: name,
        catalogue: CatalogueV {
            name: acc.cat_name,
            alias: acc.cat_alias,
            also: acc.cat_also,
            contact: ContactV {
                announce: acc.cat_announce,
                bugs: acc.cat_bugs,
                development: acc.cat_development,
                home: acc.cat_home,
                repository: acc.cat_repository,
                support: acc.cat_support,
            },
            ctan: acc.cat_ctan,
            license: acc.cat_license,
            topics: acc.cat_topics,
            version: acc.cat_version,
        },
        category: c,
        container_checksum: acc.container_checksum,
        container_size: acc.container_size,
        depend: acc.depend,
        execute: acc.execute,
        long_desc: acc.long_desc,
        post_action: acc.post_action,
        relocated: acc.relocated,
        revision: r,
        short_desc: acc.short_desc,
        bin_files: acc.bin_files,
        doc_container_checksum: acc.doc_container_checksum,
        doc_container_size: acc.doc_container_size,
        doc_files: acc.doc_files,
        run_files: acc.run_files,
        src_container_checksum: acc.src_container_checksum,
        src_container_size: acc.src_container_size,
        src_files: acc.src_files,
    }
}

/// One record: a `name` line closed by a plain newline, comment lines, then
/// the record's fields. The record is accepted only when it held exactly one
/// `category` and exactly one `revision` field.
pub open spec fn spec_parse_entry(s: Seq<char>, i: int) -> Option<(EntryV, int)> {
    if has_prefix_at(s, i, "name "@) {
        match spec_line_content(s, i + "name "@.len()) {
            Some(ce) => if ce.1 < s.len() && s[ce.1] == '\n' {
                match spec_fields(s, skip_comments(s, ce.1 + 1), init_acc()) {
                    Some(aj) => match (aj.0.category, aj.0.revision) {
                        (Some(c), Some(r)) => if i < aj.1 && aj.1 <= s.len() {
                            Some((entry_of(ce.0, aj.0, c, r), aj.1))
                        } else {
                            None
                        },
                        _ => None,
                    },
                    None => None,
                }
            } else {
                None
            },
            None => None,
        }
    } else {
        None
    }
}

/// As many records as parse, one after the other, with the position where
/// parsing stopped.
pub open spec fn spec_parse_entries(s: Seq<char>, i: int) -> (Seq<EntryV>, int)
    decreases s.len() - i when 0 <= i <= s.len()
{
    match spec_parse_entry(s, i) {
        None => (Seq::empty(), i),
        Some(ej) => if i < ej.1 && ej.1 <= s.len() {
            let r = spec_parse_entries(s, ej.1);
            (seq![ej.0] + r.0, r.1)
        } else {
            (Seq::empty(), i)
        },
    }
}

/// Parses one record starting at `i`.
#[verifier::rlimit(100)]
pub fn parse_entry(s: &str, i: usize) -> (r: Option<(BorrowedEntry, usize)>)
    requires
        i <= s@.len(),
    ensures
        r is Some <==> spec_parse_entry(s@, i as int) is Some,
        r matches Some((e, j)) ==> spec_parse_entry(s@, i as int) == Some(
            (e.deep_view(), j as int),
        ) && i < j <= s@.len(),
{
    let j0 = match try_keyword(s, i, "name ") {
        Some(j) => j,
        None => {
            return None;
        },
    };
    let (nm, e) = match read_line_content(s, j0) {
        Some(x) => x,
        None => {
            return None;
        },
    };
    let n = s.unicode_len();
    if !(e < n && s.get_char(e) == '\n') {
        return None;
    }
    let start = consume_comments(s, e + 1);
    let mut acc = EntryAcc::new();
    let mut pos: usize = start;
    loop
        invariant_except_break
            spec_fields(s@, start as int, init_acc()) == spec_fields(
                s@,
                pos as int,
                acc.deep_view(),
            ),
        invariant
            has_prefix_at(s@, i as int, "name "@),
            spec_line_content(s@, i + "name "@.len()) == Some((nm@, e as int)),
            e < s@.len(),
            s@[e as int] == '\n',
            start == skip_comments(s@, e + 1),
            i < start <= pos <= n == s@.len(),
        ensures
            pos <= s@.len(),
            spec_fields(s@, start as int, init_acc()) == Some((acc.deep_view(), pos as int)),
        decreases n - pos,
    {
        if let Some(j) = take_linebreak(s, pos) {
            proof {
                assert(spec_fields(s@, pos as int, acc.deep_view()) == Some(
                    (acc.deep_view(), j as int),
                ));
            }
            pos = j;
            break;
        }
        if pos == n {
            proof {
                assert(spec_fields(s@, pos as int, acc.deep_view()) == Some(
                    (acc.deep_view(), pos as int),
                ));
            }
            break;
        }
        match parse_field(s, pos) {
            None => {
                proof {
                    assert(spec_fields(s@, pos as int, acc.deep_view()) is None);
                    assert(spec_fields(s@, start as int, init_acc()) is None);
                    assert(spec_parse_entry(s@, i as int) is None);
                }
                return None;
            },
            Some((f, j)) => {
                let ghost fv = field_view(&f);
                let ghost a0 = acc.deep_view();
                let ok = apply_field_exec(&mut acc, f);
                if !ok {
                    proof {
                        assert(spec_fields(s@, pos as int, a0) is None);
                        assert(spec_fields(s@, start as int, init_acc()) is None);
                        assert(spec_parse_entry(s@, i as int) is None);
                    }
                    return None;
                }
                proof {
                    assert(spec_fields(s@, pos as int, a0) == spec_fields(
                        s@,
                        j as int,
                        acc.deep_view(),
                    ));
                }
                pos = j;
            },
        }
    }
    let ghost accv = acc.deep_view();
    if acc.category.is_none() || acc.revision.is_none() {
        return None;
    }
    let EntryAcc {
        cat_name,
        cat_alias,
        cat_also,
        cat_announce,
        cat_bugs,
        cat_development,
        cat_home,
        cat_repository,
        cat_support,
        cat_ctan,
        cat_license,
        cat_topics,
        cat_version,
        category,
        container_checksum,
        container_size,
        depend,
        execute,
        long_desc,
        post_action,
        relocated,
        revision,
        short_desc,
        bin_files,
        doc_container_checksum,
        doc_container_size,
        doc_files,
        run_files,
        src_container_checksum,
        src_container_size,
        src_files,
    } = acc;
    let entry = BorrowedEntry {
        name: nm,
        catalogue: BorrowedCatalogueEntry {
            name: cat_name,
            alias: cat_alias,
            also: cat_also,
            contact: BorrowedContactEntry {
                announce: cat_announce,
                bugs: cat_bugs,
                development: cat_development,
                home: cat_home,
                repository: cat_repository,
                support: cat_support,
            },
            ctan: cat_ctan,
            license: cat_license,
            topics: cat_topics,
            version: cat_version,
        },
        category: category.unwrap(),
        container_checksum,
        container_size,
        depend,
        execute,
        long_desc,
        post_action,
        relocated,
        revision: revision.unwrap(),
        short_desc,
        bin_files,
        doc_container_checksum,
        doc_container_size,
        doc_files,
        run_files,
        src_container_checksum,
        src_container_size,
        src_files,
    };
    proof {
        assert(entry.deep_view() =~= entry_of(
            nm@,
            accv,
            accv.category.unwrap(),
            accv.revision.unwrap(),
        ));
    }
    Some((entry, pos))
}

/// Parses record after record, returning them in source order together with
/// the position where parsing stopped.
pub fn parse_entries(s: &str, i: usize) -> (r: (Vec<BorrowedEntry>, usize))
    requires
        i <= s@.len(),
    ensures
        spec_parse_entries(s@, i as int).0 == r.0.deep_view(),
        spec_parse_entries(s@, i as int).1 == r.1,
        i <= r.1 <= s@.len(),
{
    let mut out: Vec<BorrowedEntry> = Vec::new();
    let mut pos: usize = i;
    let n = s.unicode_len();
    loop
        invariant
            i <= pos <= n == s@.len(),
            spec_parse_entries(s@, i as int).0 =~= out.deep_view() + spec_parse_entries(
                s@,
                pos as int,
            ).0,
            spec_parse_entries(s@, i as int).1 == spec_parse_entries(s@, pos as int).1,
        ensures
            i <= pos <= s@.len(),
            spec_parse_entries(s@, i as int).0 =~= out.deep_view(),
            spec_parse_entries(s@, i as int).1 == pos,
        decreases n - pos,
    {
        match parse_entry(s, pos) {
            None => {
                proof {
                    assert(spec_parse_entries(s@, pos as int).0 =~= Seq::<EntryV>::empty());
                    assert(out.deep_view() + Seq::<EntryV>::empty() =~= out.deep_view());
                }
                break;
            },
            Some((e, j)) => {
                proof {
                    assert(spec_parse_entries(s@, pos as int).0 =~= seq![e.deep_view()]
                        + spec_parse_entries(s@, j as int).0);
                    assert(spec_parse_entries(s@, pos as int).1 == spec_parse_entries(
                        s@,
                        j as int,
                    ).1);
                }
                let ghost ev = e.deep_view();
                let ghost old_out = out.deep_view();
                out.push(e);
                proof {
                    assert(out.deep_view() =~= old_out.push(ev));
                    assert(old_out.push(ev) + spec_parse_entries(s@, j as int).0 =~= old_out + (
                    seq![ev] + spec_parse_entries(s@, j as int).0));
                }
                pos = j;
            },
        }
    }
    proof {
        assert(spec_parse_entries(s@, i as int).0 == out.deep_view());
    }
    (out, pos)
}

} // verus!
