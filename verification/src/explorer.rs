//! The file explorer's directory listings: links to entries relative to the
//! root, breadcrumbs, entry kinds and the listing order.
use vstd::prelude::*;
use vstd::utf8::{decode_utf8, encode_utf8};

use crate::path::{comps_view, component_text, components, path_components, Component, PathComponent};
use crate::path::{is_plain_name, lemma_components_plain, pushed_all, split_chars, split_on, texts};
use crate::path::{lemma_split_after_sep, lemma_split_single};
use crate::text::{ascii_lower, ascii_lower_char, chars_eq_str, chars_of, to_ascii_lowercase};
use crate::url_encode::{
    component_string, decoded_pieces, encode_components, encoded_uri, lemma_decode_encoded_names,
    lemma_percent_roundtrip, percent_decode_text, percent_encode_text, percent_encoded,
};

verus! {

/// Whether the components `prefix` begin the components `cs`.
pub open spec fn is_component_prefix(prefix: Seq<Component>, cs: Seq<Component>) -> bool {
    prefix.len() <= cs.len() && cs.take(prefix.len() as int) == prefix
}

/// Whether `path` lies under `root`, component by component
/// (`Path::strip_prefix` succeeds).
pub open spec fn is_under(root: Seq<char>, path: Seq<char>) -> bool {
    is_component_prefix(components(root), components(path))
}

/// The components of `path` after those of `root`.
pub open spec fn components_after(root: Seq<char>, path: Seq<char>) -> Seq<Component> {
    components(path).skip(components(root).len() as int)
}

fn chars_equal(a: &Vec<char>, b: &Vec<char>) -> (res: bool)
    ensures
        res == (a@ == b@),
{
    if a.len() != b.len() {
        return false;
    }
    let mut i: usize = 0;
    while i < a.len()
        invariant
            i <= a.len(),
            a.len() == b.len(),
            forall|j: int| 0 <= j < i ==> a@[j] == b@[j],
        decreases a.len() - i,
    {
        if a[i] != b[i] {
            return false;
        }
        i = i + 1;
    }
    assert(a@ =~= b@);
    true
}

fn component_equal(a: &PathComponent, b: &PathComponent) -> (res: bool)
    ensures
        res == (a.deep_view() == b.deep_view()),
{
    match (a, b) {
        (PathComponent::RootDir, PathComponent::RootDir) => true,
        (PathComponent::CurDir, PathComponent::CurDir) => true,
        (PathComponent::ParentDir, PathComponent::ParentDir) => true,
        (PathComponent::Normal(x), PathComponent::Normal(y)) => chars_equal(x, y),
        _ => false,
    }
}

/// Whether the components `prefix` begin the components `cs`.
fn starts_with_components(cs: &Vec<PathComponent>, prefix: &Vec<PathComponent>) -> (res: bool)
    ensures
        res == is_component_prefix(comps_view(prefix@), comps_view(cs@)),
{
    if prefix.len() > cs.len() {
        return false;
    }
    let mut i: usize = 0;
    while i < prefix.len()
        invariant
            i <= prefix.len() <= cs.len(),
            forall|j: int| 0 <= j < i ==> comps_view(cs@)[j] == comps_view(prefix@)[j],
        decreases prefix.len() - i,
    {
        if !component_equal(&cs[i], &prefix[i]) {
            assert(comps_view(cs@).take(prefix.len() as int)[i as int] != comps_view(prefix@)[i as int]);
            return false;
        }
        i = i + 1;
    }
    assert(comps_view(cs@).take(prefix.len() as int) =~= comps_view(prefix@));
    true
}

/// The link of a directory entry, relative to the root the explorer
/// serves: the entry's components after the root's, as a URI path.
pub fn make_dir_entry_link(root_dir: &str, entry_path: &str) -> (res: String)
    requires
        is_under(root_dir@, entry_path@),
    ensures
        res@ == encoded_uri(components_after(root_dir@, entry_path@)),
{
    let rc = path_components(&chars_of(root_dir));
    let ec = path_components(&chars_of(entry_path));
    encode_components(&ec, rc.len())
}

/// The texts of components.
pub open spec fn component_texts(cs: Seq<Component>) -> Seq<Seq<char>> {
    cs.map_values(|c: Component| component_text(c))
}

/// An entry's link leads back to it: when every component of the entry's
/// path after the root is a name, decoding the link (as a request path is
/// decoded) gives those names joined as a path.
pub proof fn lemma_entry_link_roundtrip(root: Seq<char>, entry: Seq<char>)
    requires
        is_under(root, entry),
        forall|i: int|
            0 <= i < components_after(root, entry).len() ==> (#[trigger] components_after(
                root,
                entry,
            )[i]) is Normal,
    ensures
        pushed_all(
            seq![],
            decoded_pieces(split_on(encoded_uri(components_after(root, entry)), '/')),
        ) == pushed_all(seq![], component_texts(components_after(root, entry))),
{
    let cs = components_after(root, entry);
    let ns = component_texts(cs);
    let off = components(root).len() as int;
    lemma_components_plain(entry);
    assert forall|i: int| 0 <= i < ns.len() implies is_plain_name(#[trigger] ns[i]) by {
        assert(cs[i] == components(entry)[i + off]);
        assert(cs[i] is Normal);
    }
    assert(ns.map_values(|n: Seq<char>| Component::Normal(n)) =~= cs);
    lemma_decode_encoded_names(ns);
}

/// A step of the breadcrumb trail leading to a directory.
#[derive(Clone, Debug, PartialEq, Eq)]
pub struct BreadcrumbItem {
    pub depth: u8,
    pub entry_name: String,
    pub entry_link: String,
}

/// The path does not lie under the root directory.
#[derive(Debug, PartialEq, Eq, Structural)]
pub struct NotUnderRoot;

/// The percent-encoded text of a component.
pub open spec fn encoded_component(c: Component) -> Seq<char> {
    percent_encoded(encode_utf8(component_text(c)))
}

/// The texts `ss` joined with `/` between them.
pub open spec fn slash_joined(ss: Seq<Seq<char>>) -> Seq<char>
    decreases ss.len(),
{
    if ss.len() == 0 {
        seq![]
    } else if ss.len() == 1 {
        ss[0]
    } else {
        slash_joined(ss.drop_last()) + seq!['/'] + ss.last()
    }
}

/// The link of the breadcrumb for the first `i + 1` components of `rest`:
/// `/` and their encoded texts joined with `/`.
pub open spec fn crumb_link(rest: Seq<Component>, i: int) -> Seq<char> {
    seq!['/'] + slash_joined(rest.take(i + 1).map_values(|c: Component| encoded_component(c)))
}

/// Whether `items` is the breadcrumb trail of `path` under `root`: first the
/// root, named by its last component and linked as `/`, then one item per
/// component of `path` after the root, at depth `i + 1` (kept in a byte),
/// named by the component and linked to the components up to it.
pub open spec fn is_breadcrumb_trail(root: Seq<char>, path: Seq<char>, items: Seq<BreadcrumbItem>) -> bool {
    let rest = components_after(root, path);
    &&& items.len() == rest.len() + 1
    &&& items[0].depth == 0
    &&& items[0].entry_name@ == component_text(components(root).last())
    &&& items[0].entry_link@ == seq!['/']
    &&& forall|i: int|
        0 <= i < rest.len() ==> {
            &&& (#[trigger] items[i + 1]).depth == ((i + 1) % 256) as u8
            &&& items[i + 1].entry_name@ == component_text(rest[i])
            &&& items[i + 1].entry_link@ == crumb_link(rest, i)
        }
}

/// The breadcrumb trail of `path` under `root_dir` (see
/// [`is_breadcrumb_trail`]); fails when `path` does not lie under the root.
pub fn breadcrumbs_from_path(root_dir: &str, path: &str) -> (res: Result<Vec<BreadcrumbItem>, NotUnderRoot>)
    requires
        components(root_dir@).len() > 0,
    ensures
        res is Ok <==> is_under(root_dir@, path@),
        res matches Ok(items) ==> is_breadcrumb_trail(root_dir@, path@, items@),
{
    let rc = path_components(&chars_of(root_dir));
    let pc = path_components(&chars_of(path));
    if !starts_with_components(&pc, &rc) {
        return Err(NotUnderRoot);
    }
    let ghost rest = components_after(root_dir@, path@);
    let mut items: Vec<BreadcrumbItem> = Vec::new();
    let root_name = component_string(&rc[rc.len() - 1]);
    let mut root_link = String::new();
    crate::text::push_char(&mut root_link, '/');
    items.push(BreadcrumbItem { depth: 0, entry_name: root_name, entry_link: root_link });
    let start = rc.len();
    let mut joined = String::new();
    let mut i: usize = start;
    while i < pc.len()
        invariant
            start == rc.len() <= i <= pc.len(),
            comps_view(pc@) == components(path@),
            comps_view(rc@) == components(root_dir@),
            rest == components_after(root_dir@, path@),
            rest == comps_view(pc@).skip(start as int),
            items.len() == i - start + 1,
            items@[0].depth == 0,
            items@[0].entry_name@ == component_text(components(root_dir@).last()),
            items@[0].entry_link@ == seq!['/'],
            joined@ == slash_joined(rest.take(i - start).map_values(|c: Component| encoded_component(c))),
            forall|k: int|
                0 <= k < i - start ==> {
                    &&& (#[trigger] items@[k + 1]).depth == ((k + 1) % 256) as u8
                    &&& items@[k + 1].entry_name@ == component_text(rest[k])
                    &&& items@[k + 1].entry_link@ == crumb_link(rest, k)
                },
        decreases pc.len() - i,
    {
        let k = i - start;
        let c = &pc[i];
        assert(rest[k as int] == c.deep_view());
        let text = component_string(c);
        let enc = percent_encode_text(text.as_str());
        proof {
            lemma_percent_roundtrip(text@);
        }
        let name = match percent_decode_text(enc.as_str()) {
            Some(t) => t,
            None => {
                assert(false);
                String::new()
            },
        };
        let ghost old_joined = joined@;
        let ghost encs = rest.take(k + 1).map_values(|c: Component| encoded_component(c));
        if k > 0 {
            crate::text::push_char(&mut joined, '/');
        }
        joined.append(enc.as_str());
        proof {
            assert(encs.drop_last() =~= rest.take(k as int).map_values(|c: Component| encoded_component(c)));
            assert(encs.last() == enc@);
            assert(joined@ =~= slash_joined(encs));
        }
        let mut link = String::new();
        crate::text::push_char(&mut link, '/');
        link.append(joined.as_str());
        let depth: u8 = ((k + 1) % 256) as u8;
        items.push(BreadcrumbItem { depth, entry_name: name, entry_link: link });
        i = i + 1;
    }
    proof {
        assert(rest.len() == pc.len() - start);
    }
    Ok(items)
}

/// The kind of a directory entry, as the explorer shows it.
#[derive(Clone, Copy, Debug, PartialEq, Eq, Structural)]
pub enum EntryType {
    Directory,
    Git,
    Justfile,
    Markdown,
    Rust,
    Toml,
    File,
}

/// The kind of an entry: a directory, or by the ASCII lower-case text after
/// the last `.` of its name (the whole name when it has no `.`).
pub open spec fn entry_type_of(name: Seq<char>, is_dir: bool) -> EntryType {
    if is_dir {
        EntryType::Directory
    } else {
        let ext = ascii_lower(split_on(name, '.').last());
        if ext == "gitignore"@ || ext == "gitkeep"@ {
            EntryType::Git
        } else if ext == "justfile"@ {
            EntryType::Justfile
        } else if ext == "md"@ {
            EntryType::Markdown
        } else if ext == "rs"@ {
            EntryType::Rust
        } else if ext == "toml"@ {
            EntryType::Toml
        } else {
            EntryType::File
        }
    }
}

/// A file's kind is decided by the text after its last `.`: a name, a `.`
/// and an extension without `.` has the kind of the extension alone, so
/// every file whose name ends in `.md` is Markdown, whatever comes before.
pub proof fn lemma_kind_follows_last_extension(n: Seq<char>, e: Seq<char>)
    requires
        !e.contains('.'),
    ensures
        entry_type_of(n + seq!['.'] + e, false) == entry_type_of(e, false),
{
    lemma_split_after_sep(n, e, '.');
    lemma_split_single(e, '.');
}

proof fn lemma_split_of_lowered(n: Seq<char>)
    ensures
        split_on(ascii_lower(n), '.') == split_on(n, '.').map_values(|p: Seq<char>| ascii_lower(p)),
    decreases n.len(),
{
    let f = |p: Seq<char>| ascii_lower(p);
    if n.len() == 0 {
        assert(ascii_lower(n) =~= n);
        assert(split_on(n, '.').map_values(f) =~= seq![ascii_lower(Seq::<char>::empty())]);
        assert(ascii_lower(Seq::<char>::empty()) =~= Seq::<char>::empty());
    } else {
        let m = n.drop_last();
        let c = n.last();
        lemma_split_of_lowered(m);
        assert(ascii_lower(n).drop_last() =~= ascii_lower(m));
        assert(ascii_lower(n).last() == ascii_lower_char(c));
        let r = split_on(m, '.');
        crate::path::lemma_split_on_nonempty(m, '.');
        if c == '.' {
            assert(ascii_lower(Seq::<char>::empty()) =~= Seq::<char>::empty());
            assert(r.push(Seq::<char>::empty()).map_values(f) =~= r.map_values(f).push(
                Seq::<char>::empty(),
            ));
        } else {
            assert(ascii_lower_char(c) != '.');
            let r2 = r.update(r.len() - 1, r.last().push(c));
            assert(ascii_lower(r.last().push(c)) =~= ascii_lower(r.last()).push(ascii_lower_char(c)));
            assert(r2.map_values(f) =~= r.map_values(f).update(
                r.len() - 1,
                r.map_values(f).last().push(ascii_lower_char(c)),
            ));
        }
    }
}

/// A file's kind ignores the ASCII case of its name: `NOTES.MD` is Markdown
/// as `notes.md` is.
pub proof fn lemma_kind_ignores_case(n: Seq<char>)
    ensures
        entry_type_of(ascii_lower(n), false) == entry_type_of(n, false),
{
    lemma_split_of_lowered(n);
    crate::path::lemma_split_on_nonempty(n, '.');
    let last = split_on(n, '.').last();
    assert(ascii_lower(ascii_lower(last)) =~= ascii_lower(last));
}

/// A text of lower-case ASCII letters has no `.` and is its own lower-case
/// form.
proof fn lemma_lower_letters(e: Seq<char>)
    requires
        forall|i: int| 0 <= i < e.len() ==> 'a' <= #[trigger] e[i] && e[i] <= 'z',
    ensures
        !e.contains('.'),
        ascii_lower(e) == e,
{
    if e.contains('.') {
        let i = choose|i: int| 0 <= i < e.len() && e[i] == '.';
    }
    assert(ascii_lower(e) =~= e);
}

/// The kind of a file named `n.e`, for an extension `e` of lower-case
/// letters, is the kind `e` names.
proof fn lemma_letters_extension(n: Seq<char>, e: Seq<char>)
    requires
        forall|i: int| 0 <= i < e.len() ==> 'a' <= #[trigger] e[i] && e[i] <= 'z',
    ensures
        entry_type_of(n + seq!['.'] + e, false) == entry_type_of(e, false),
        split_on(e, '.') == seq![e],
        ascii_lower(e) == e,
{
    lemma_lower_letters(e);
    lemma_kind_follows_last_extension(n, e);
    lemma_split_single(e, '.');
}

/// The kinds of the known extensions, whatever the name before them: `.md`
/// is Markdown, `.rs` Rust, `.toml` Toml, `.gitignore` and `.gitkeep` Git,
/// and a name without `.` called `justfile` is a Justfile; a directory is
/// always a Directory and a file never is.
pub proof fn lemma_known_kinds(n: Seq<char>)
    ensures
        entry_type_of(n + seq!['.', 'm', 'd'], false) == EntryType::Markdown,
        entry_type_of(n + seq!['.', 'r', 's'], false) == EntryType::Rust,
        entry_type_of(n + seq!['.', 't', 'o', 'm', 'l'], false) == EntryType::Toml,
        entry_type_of(n + seq!['.', 'g', 'i', 't', 'i', 'g', 'n', 'o', 'r', 'e'], false)
            == EntryType::Git,
        entry_type_of(n + seq!['.', 'g', 'i', 't', 'k', 'e', 'e', 'p'], false) == EntryType::Git,
        entry_type_of(seq!['j', 'u', 's', 't', 'f', 'i', 'l', 'e'], false) == EntryType::Justfile,
        entry_type_of(n, true) == EntryType::Directory,
        entry_type_of(n, false) != EntryType::Directory,
{
    reveal_strlit("md");
    reveal_strlit("rs");
    reveal_strlit("toml");
    reveal_strlit("gitignore");
    reveal_strlit("gitkeep");
    reveal_strlit("justfile");
    let md = seq!['m', 'd'];
    lemma_letters_extension(n, md);
    assert(n + seq!['.', 'm', 'd'] =~= n + seq!['.'] + md);
    assert(md =~= "md"@);
    let rs = seq!['r', 's'];
    lemma_letters_extension(n, rs);
    assert(n + seq!['.', 'r', 's'] =~= n + seq!['.'] + rs);
    assert(rs =~= "rs"@);
    let toml = seq!['t', 'o', 'm', 'l'];
    lemma_letters_extension(n, toml);
    assert(n + seq!['.', 't', 'o', 'm', 'l'] =~= n + seq!['.'] + toml);
    assert(toml =~= "toml"@);
    let gi = seq!['g', 'i', 't', 'i', 'g', 'n', 'o', 'r', 'e'];
    lemma_letters_extension(n, gi);
    assert(n + seq!['.', 'g', 'i', 't', 'i', 'g', 'n', 'o', 'r', 'e'] =~= n + seq!['.'] + gi);
    assert(gi =~= "gitignore"@);
    let gk = seq!['g', 'i', 't', 'k', 'e', 'e', 'p'];
    lemma_letters_extension(n, gk);
    assert(n + seq!['.', 'g', 'i', 't', 'k', 'e', 'e', 'p'] =~= n + seq!['.'] + gk);
    assert(gk =~= "gitkeep"@);
    let jf = seq!['j', 'u', 's', 't', 'f', 'i', 'l', 'e'];
    lemma_letters_extension(n, jf);
    assert(jf =~= "justfile"@);
}

/// The kind of the entry named `display_name` (see [`entry_type_of`]).
pub fn entry_type(display_name: &str, is_dir: bool) -> (res: EntryType)
    ensures
        res == entry_type_of(display_name@, is_dir),
{
    if is_dir {
        return EntryType::Directory;
    }
    let pieces = split_chars(&chars_of(display_name), '.');
    proof {
        crate::path::lemma_split_on_nonempty(display_name@, '.');
        assert(texts(pieces@).last() == pieces@[pieces.len() - 1]@);
    }
    let ext = to_ascii_lowercase(&pieces[pieces.len() - 1]);
    if chars_eq_str(&ext, "gitignore") || chars_eq_str(&ext, "gitkeep") {
        EntryType::Git
    } else if chars_eq_str(&ext, "justfile") {
        EntryType::Justfile
    } else if chars_eq_str(&ext, "md") {
        EntryType::Markdown
    } else if chars_eq_str(&ext, "rs") {
        EntryType::Rust
    } else if chars_eq_str(&ext, "toml") {
        EntryType::Toml
    } else {
        EntryType::File
    }
}

/// A moment as Unix seconds and nanoseconds.
#[derive(Clone, Copy, Debug, PartialEq, Eq, Structural)]
pub struct Timestamp {
    pub secs: i64,
    pub nanos: u32,
}

/// An entry of a directory as read from the file system.
pub struct RawEntry {
    pub display_name: String,
    pub path: String,
    pub is_dir: bool,
    pub size_bytes: u64,
    pub date_created: Option<Timestamp>,
    pub date_modified: Option<Timestamp>,
}

/// An entry of a directory listing.
pub struct DirectoryEntry {
    pub display_name: String,
    pub is_dir: bool,
    pub size_bytes: u64,
    pub entry_path: String,
    pub entry_type: EntryType,
    pub date_created: Option<Timestamp>,
    pub date_modified: Option<Timestamp>,
}

/// The order a listing is sorted in.
#[derive(Clone, Copy, Debug, PartialEq, Eq, Structural)]
pub enum Sort {
    Directory,
    Name,
    Size,
    DateCreated,
    DateModified,
}

/// A directory listing: its entries, the breadcrumb trail to it and its
/// order.
pub struct DirectoryIndex {
    pub entries: Vec<DirectoryEntry>,
    pub breadcrumbs: Vec<BreadcrumbItem>,
    pub sort: Sort,
}

/// Whether `a` comes strictly before `b`, character by character (the order
/// of `String`).
pub open spec fn name_lt(a: Seq<char>, b: Seq<char>) -> bool
    decreases a.len(),
{
    if a.len() == 0 {
        b.len() > 0
    } else if b.len() == 0 {
        false
    } else if a[0] != b[0] {
        (a[0] as int) < (b[0] as int)
    } else {
        name_lt(a.drop_first(), b.drop_first())
    }
}

/// Where insertion sort puts `x` into `r`: after the last entry whose name
/// is not greater than `x`'s, scanning from the end.
pub open spec fn insert_point(r: Seq<DirectoryEntry>, x: DirectoryEntry) -> nat
    decreases r.len(),
{
    if r.len() == 0 {
        0
    } else if name_lt(x.display_name@, r.last().display_name@) {
        insert_point(r.drop_last(), x)
    } else {
        r.len()
    }
}

/// `r` with `x` inserted at its insertion point.
pub open spec fn inserted(r: Seq<DirectoryEntry>, x: DirectoryEntry) -> Seq<DirectoryEntry> {
    r.insert(insert_point(r, x) as int, x)
}

/// Stable insertion sort by name.
pub open spec fn sorted_by_name(s: Seq<DirectoryEntry>) -> Seq<DirectoryEntry>
    decreases s.len(),
{
    if s.len() == 0 {
        seq![]
    } else {
        inserted(sorted_by_name(s.drop_last()), s.last())
    }
}

/// The entries of `s` that are directories (`want`) or files (`!want`), in
/// their order.
pub open spec fn entries_where(s: Seq<DirectoryEntry>, want: bool) -> Seq<DirectoryEntry>
    decreases s.len(),
{
    if s.len() == 0 {
        seq![]
    } else if s.last().is_dir == want {
        entries_where(s.drop_last(), want).push(s.last())
    } else {
        entries_where(s.drop_last(), want)
    }
}

/// The listing order: the directories sorted by name (stable), then the
/// files in the order they came.
pub open spec fn listing_order(s: Seq<DirectoryEntry>) -> Seq<DirectoryEntry> {
    sorted_by_name(entries_where(s, true)) + entries_where(s, false)
}

/// Whether the names in `s` never decrease.
pub open spec fn names_nondecreasing(s: Seq<DirectoryEntry>) -> bool {
    forall|i: int, j: int|
        0 <= i < j < s.len() ==> !name_lt(#[trigger] s[j].display_name@, #[trigger] s[i].display_name@)
}

/// Whether no file in `s` comes before a directory.
pub open spec fn directories_first(s: Seq<DirectoryEntry>) -> bool {
    forall|i: int, j: int| 0 <= i < j < s.len() && #[trigger] s[j].is_dir ==> #[trigger] s[i].is_dir
}

proof fn lemma_name_lt_irreflexive(a: Seq<char>)
    ensures
        !name_lt(a, a),
    decreases a.len(),
{
    if a.len() > 0 {
        lemma_name_lt_irreflexive(a.drop_first());
    }
}

proof fn lemma_name_lt_asymmetric(a: Seq<char>, b: Seq<char>)
    requires
        name_lt(a, b),
    ensures
        !name_lt(b, a),
    decreases a.len(),
{
    if a.len() > 0 && b.len() > 0 && a[0] == b[0] {
        lemma_name_lt_asymmetric(a.drop_first(), b.drop_first());
    }
}

proof fn lemma_name_lt_transitive(a: Seq<char>, b: Seq<char>, c: Seq<char>)
    requires
        name_lt(a, b),
        name_lt(b, c),
    ensures
        name_lt(a, c),
    decreases a.len(),
{
    if a.len() > 0 && b.len() > 0 && c.len() > 0 && a[0] == b[0] && b[0] == c[0] {
        lemma_name_lt_transitive(a.drop_first(), b.drop_first(), c.drop_first());
    }
}

proof fn lemma_name_lt_total(a: Seq<char>, b: Seq<char>)
    requires
        a != b,
    ensures
        name_lt(a, b) || name_lt(b, a),
    decreases a.len(),
{
    if a.len() == 0 {
        if b.len() == 0 {
            assert(a =~= b);
        }
    } else if b.len() > 0 && a[0] != b[0] {
        assert((a[0] as int) != (b[0] as int));
    } else if b.len() > 0 {
        assert(a.drop_first().len() == a.len() - 1);
        assert(b.drop_first().len() == b.len() - 1);
        if a.drop_first() == b.drop_first() {
            assert forall|k: int| 0 <= k < a.len() implies a[k] == b[k] by {
                if k > 0 {
                    assert(a[k] == a.drop_first()[k - 1]);
                    assert(b[k] == b.drop_first()[k - 1]);
                }
            }
            assert(a =~= b);
        }
        lemma_name_lt_total(a.drop_first(), b.drop_first());
    }
}

/// "Not after" is transitive.
proof fn lemma_name_le_transitive(a: Seq<char>, b: Seq<char>, c: Seq<char>)
    requires
        !name_lt(b, a),
        !name_lt(c, b),
    ensures
        !name_lt(c, a),
{
    if a != b && b != c {
        lemma_name_lt_total(a, b);
        lemma_name_lt_total(b, c);
        lemma_name_lt_transitive(a, b, c);
        lemma_name_lt_asymmetric(a, c);
    } else if a == b && b == c {
        lemma_name_lt_irreflexive(a);
    }
}

proof fn lemma_insert_point(r: Seq<DirectoryEntry>, x: DirectoryEntry)
    ensures
        insert_point(r, x) <= r.len(),
        forall|k: int|
            insert_point(r, x) <= k < r.len() ==> name_lt(x.display_name@, #[trigger] r[k].display_name@),
        insert_point(r, x) > 0 ==> !name_lt(x.display_name@, r[insert_point(r, x) - 1].display_name@),
    decreases r.len(),
{
    if r.len() > 0 && name_lt(x.display_name@, r.last().display_name@) {
        lemma_insert_point(r.drop_last(), x);
        assert forall|k: int| insert_point(r, x) <= k < r.len() implies name_lt(
            x.display_name@,
            #[trigger] r[k].display_name@,
        ) by {
            if k < r.len() - 1 {
                assert(r[k] == r.drop_last()[k]);
            }
        }
    }
}

proof fn lemma_inserted(r: Seq<DirectoryEntry>, x: DirectoryEntry)
    requires
        names_nondecreasing(r),
    ensures
        names_nondecreasing(inserted(r, x)),
        inserted(r, x).to_multiset() == r.to_multiset().insert(x),
{
    let p = insert_point(r, x) as int;
    lemma_insert_point(r, x);
    let n = inserted(r, x);
    assert forall|i: int, j: int| 0 <= i < j < n.len() implies !name_lt(
        #[trigger] n[j].display_name@,
        #[trigger] n[i].display_name@,
    ) by {
        if j < p {
            assert(n[i] == r[i] && n[j] == r[j]);
        } else if j == p {
            assert(n[i] == r[i]);
            if i < p - 1 {
                assert(!name_lt(r[p - 1].display_name@, r[i].display_name@));
            } else {
                lemma_name_lt_irreflexive(r[i].display_name@);
            }
            lemma_name_le_transitive(r[i].display_name@, r[p - 1].display_name@, x.display_name@);
        } else if i == p {
            assert(n[j] == r[j - 1]);
            lemma_name_lt_asymmetric(x.display_name@, r[j - 1].display_name@);
        } else if i < p {
            assert(n[i] == r[i] && n[j] == r[j - 1]);
        } else {
            assert(n[i] == r[i - 1] && n[j] == r[j - 1]);
        }
    }
    vstd::seq_lib::to_multiset_insert(r, p, x);
}

proof fn lemma_sorted_by_name(s: Seq<DirectoryEntry>)
    ensures
        names_nondecreasing(sorted_by_name(s)),
        sorted_by_name(s).to_multiset() == s.to_multiset(),
    decreases s.len(),
{
    if s.len() > 0 {
        lemma_sorted_by_name(s.drop_last());
        lemma_inserted(sorted_by_name(s.drop_last()), s.last());
        vstd::seq_lib::to_multiset_build(s.drop_last(), s.last());
        assert(s.drop_last().push(s.last()) =~= s);
    } else {
        assert(s =~= seq![]);
    }
}

proof fn lemma_entries_where(s: Seq<DirectoryEntry>)
    ensures
        forall|k: int| 0 <= k < entries_where(s, true).len() ==> #[trigger] entries_where(s, true)[k].is_dir,
        forall|k: int| 0 <= k < entries_where(s, false).len() ==> !#[trigger] entries_where(s, false)[k].is_dir,
        entries_where(s, true).to_multiset().add(entries_where(s, false).to_multiset()) == s.to_multiset(),
    decreases s.len(),
{
    broadcast use vstd::multiset::group_multiset_axioms;
    if s.len() == 0 {
        vstd::seq_lib::to_multiset_len(s);
        vstd::multiset::lemma_multiset_empty_len(s.to_multiset());
        assert(entries_where(s, true) =~= s);
        assert(entries_where(s, false) =~= s);
        assert(s.to_multiset().add(s.to_multiset()) =~= s.to_multiset());
    } else {
        let t = s.drop_last();
        lemma_entries_where(t);
        vstd::seq_lib::to_multiset_build(t, s.last());
        assert(t.push(s.last()) =~= s);
        if s.last().is_dir {
            vstd::seq_lib::to_multiset_build(entries_where(t, true), s.last());
        } else {
            vstd::seq_lib::to_multiset_build(entries_where(t, false), s.last());
        }
        assert(entries_where(s, true).to_multiset().add(entries_where(s, false).to_multiset())
            =~= s.to_multiset());
    }
}

/// The listing order keeps every entry (as many times as it came), puts
/// every directory before every file, and orders the directories by name.
pub proof fn lemma_listing_order(s: Seq<DirectoryEntry>)
    ensures
        listing_order(s).to_multiset() == s.to_multiset(),
        directories_first(listing_order(s)),
        names_nondecreasing(sorted_by_name(entries_where(s, true))),
        listing_order(s).subrange(0, entries_where(s, true).len() as int) == sorted_by_name(entries_where(s, true)),
{
    let d = entries_where(s, true);
    let f = entries_where(s, false);
    let sd = sorted_by_name(d);
    let l = listing_order(s);
    lemma_entries_where(s);
    lemma_sorted_by_name(d);
    vstd::seq_lib::lemma_multiset_commutative(sd, f);
    vstd::seq_lib::to_multiset_len(sd);
    vstd::seq_lib::to_multiset_len(d);
    assert forall|k: int| 0 <= k < sd.len() implies #[trigger] sd[k].is_dir by {
        vstd::seq_lib::to_multiset_contains(sd, sd[k]);
        vstd::seq_lib::to_multiset_contains(d, sd[k]);
        assert(sd.contains(sd[k]));
        let m = choose|m: int| 0 <= m < d.len() && d[m] == sd[k];
        assert(d[m].is_dir);
    }
    assert forall|i: int, j: int| 0 <= i < j < l.len() && #[trigger] l[j].is_dir implies #[trigger] l[i].is_dir by {
        if j >= sd.len() {
            assert(l[j] == f[j - sd.len()]);
        }
        assert(l[i] == sd[i]);
    }
    assert(l.subrange(0, d.len() as int) =~= sd);
}

fn name_less(a: &String, b: &String) -> (res: bool)
    ensures
        res == name_lt(a@, b@),
{
    let x = chars_of(a.as_str());
    let y = chars_of(b.as_str());
    let mut i: usize = 0;
    assert(x@.skip(0) =~= x@);
    assert(y@.skip(0) =~= y@);
    while i < x.len() && i < y.len() && x[i] == y[i]
        invariant
            i <= x.len(),
            i <= y.len(),
            x@ == a@,
            y@ == b@,
            name_lt(a@, b@) == name_lt(x@.skip(i as int), y@.skip(i as int)),
        decreases x.len() - i,
    {
        proof {
            assert(x@.skip(i as int).drop_first() =~= x@.skip(i + 1));
            assert(y@.skip(i as int).drop_first() =~= y@.skip(i + 1));
        }
        i = i + 1;
    }
    if i == x.len() {
        i < y.len()
    } else if i == y.len() {
        false
    } else {
        x[i] < y[i]
    }
}

/// Sorts entries into the listing order (see [`listing_order`]).
pub fn sort_entries(entries: Vec<DirectoryEntry>) -> (res: Vec<DirectoryEntry>)
    ensures
        res@ == listing_order(entries@),
{
    let ghost orig = entries@;
    let mut dirs: Vec<DirectoryEntry> = Vec::new();
    let mut files: Vec<DirectoryEntry> = Vec::new();
    let it = entries.into_iter();
    assert(orig.take(0) =~= Seq::<DirectoryEntry>::empty());
    for e in iter: it
        invariant
            iter.seq() == orig,
            dirs@ == sorted_by_name(entries_where(orig.take(iter.index() as int), true)),
            files@ == entries_where(orig.take(iter.index() as int), false),
    {
        let ghost k = iter.index() as int;
        proof {
            assert(orig.take(k + 1).drop_last() =~= orig.take(k));
            assert(orig.take(k + 1).last() == e);
        }
        let ghost before = entries_where(orig.take(k), true);
        if e.is_dir {
            let ghost old_dirs = dirs@;
            let mut j = dirs.len();
            assert(dirs@.take(j as int) =~= dirs@);
            while j > 0 && name_less(&e.display_name, &dirs[j - 1].display_name)
                invariant
                    j <= dirs.len(),
                    insert_point(dirs@, e) == insert_point(dirs@.take(j as int), e),
                decreases j,
            {
                proof {
                    assert(dirs@.take(j as int).drop_last() =~= dirs@.take(j - 1));
                }
                j = j - 1;
            }
            proof {
                if j > 0 {
                    assert(insert_point(dirs@.take(j as int), e) == j);
                } else {
                    assert(dirs@.take(0) =~= Seq::<DirectoryEntry>::empty());
                }
            }
            dirs.insert(j, e);
            proof {
                assert(entries_where(orig.take(k + 1), true) == before.push(e));
                assert(before.push(e).drop_last() =~= before);
                assert(dirs@ == inserted(old_dirs, e));
            }
        } else {
            files.push(e);
        }
    }
    let mut res = dirs;
    let f = files.into_iter();
    let ghost head = res@;
    for e in fiter: f
        invariant
            res@ == head + fiter.seq().take(fiter.index() as int),
    {
        assert(fiter.seq().take(fiter.index() + 1) =~= fiter.seq().take(fiter.index() as int).push(e));
        res.push(e);
    }
    assert(orig.take(orig.len() as int) =~= orig);
    res
}

/// Whether `e` is the listing entry of the raw entry `r` under `root`: the
/// same name, kind flag, size and dates, its kind, and its link relative to
/// the root.
pub open spec fn is_entry_of(root: Seq<char>, r: RawEntry, e: DirectoryEntry) -> bool {
    &&& e.display_name@ == r.display_name@
    &&& e.is_dir == r.is_dir
    &&& e.size_bytes == r.size_bytes
    &&& e.entry_path@ == encoded_uri(components_after(root, r.path@))
    &&& e.entry_type == entry_type_of(r.display_name@, r.is_dir)
    &&& e.date_created == r.date_created
    &&& e.date_modified == r.date_modified
}

/// Whether `entries` lists the raw entries `raw` under `root`, in the
/// listing order.
pub open spec fn is_listing_of(root: Seq<char>, raw: Seq<RawEntry>, entries: Seq<DirectoryEntry>) -> bool {
    exists|unsorted: Seq<DirectoryEntry>|
        {
            &&& unsorted.len() == raw.len()
            &&& forall|i: int| 0 <= i < raw.len() ==> is_entry_of(root, raw[i], #[trigger] unsorted[i])
            &&& entries == listing_order(unsorted)
        }
}

/// Whether `entries` lists exactly the raw entries `raw`: as many entries as
/// raw entries, each entry carrying the name, kind flag, size, creation and
/// modification time of one raw entry unchanged, and every raw entry
/// carried by one entry.
pub open spec fn lists_raw_entries(raw: Seq<RawEntry>, entries: Seq<DirectoryEntry>) -> bool {
    &&& entries.len() == raw.len()
    &&& forall|i: int|
        0 <= i < entries.len() ==> exists|j: int|
            0 <= j < raw.len() && carries(#[trigger] entries[i], #[trigger] raw[j])
    &&& forall|j: int|
        0 <= j < raw.len() ==> exists|i: int|
            0 <= i < entries.len() && carries(#[trigger] entries[i], #[trigger] raw[j])
}

/// Whether the entry `e` carries the fields of the raw entry `r`, and is
/// shown as a directory exactly when it is one.
pub open spec fn carries(e: DirectoryEntry, r: RawEntry) -> bool {
    &&& e.display_name@ == r.display_name@
    &&& (e.entry_type == EntryType::Directory) == r.is_dir
    &&& e.is_dir == r.is_dir
    &&& e.size_bytes == r.size_bytes
    &&& e.date_created == r.date_created
    &&& e.date_modified == r.date_modified
}

proof fn lemma_entry_carries(root: Seq<char>, r: RawEntry, e: DirectoryEntry)
    requires
        is_entry_of(root, r, e),
    ensures
        carries(e, r),
{
}

/// A listing loses, invents and alters no entry: it lists exactly the raw
/// entries it was made from, each with its own name, kind flag, size and
/// dates.
pub proof fn lemma_listing_keeps_raw_fields(
    root: Seq<char>,
    raw: Seq<RawEntry>,
    entries: Seq<DirectoryEntry>,
)
    requires
        is_listing_of(root, raw, entries),
    ensures
        lists_raw_entries(raw, entries),
{
    let unsorted = choose|unsorted: Seq<DirectoryEntry>|
        {
            &&& unsorted.len() == raw.len()
            &&& forall|i: int| 0 <= i < raw.len() ==> is_entry_of(root, raw[i], #[trigger] unsorted[i])
            &&& entries == listing_order(unsorted)
        };
    lemma_listing_order(unsorted);
    vstd::seq_lib::to_multiset_len(unsorted);
    vstd::seq_lib::to_multiset_len(entries);
    assert forall|i: int| 0 <= i < entries.len() implies exists|j: int|
        0 <= j < raw.len() && carries(#[trigger] entries[i], #[trigger] raw[j]) by {
        vstd::seq_lib::to_multiset_contains(entries, entries[i]);
        vstd::seq_lib::to_multiset_contains(unsorted, entries[i]);
        assert(entries.contains(entries[i]));
        let k = choose|k: int| 0 <= k < unsorted.len() && unsorted[k] == entries[i];
        lemma_entry_carries(root, raw[k], unsorted[k]);
    }
    assert forall|j: int| 0 <= j < raw.len() implies exists|i: int|
        0 <= i < entries.len() && carries(#[trigger] entries[i], #[trigger] raw[j]) by {
        vstd::seq_lib::to_multiset_contains(entries, unsorted[j]);
        vstd::seq_lib::to_multiset_contains(unsorted, unsorted[j]);
        assert(unsorted.contains(unsorted[j]));
        let k = choose|k: int| 0 <= k < entries.len() && entries[k] == unsorted[j];
        lemma_entry_carries(root, raw[j], unsorted[j]);
    }
}

/// The listing of the directory at `path` (under `root_dir`) with the
/// entries `raw` read from it: its breadcrumb trail, its entries in the
/// listing order and the directory sort. Fails when `path` does not lie
/// under the root.
pub fn index_directory(root_dir: &str, path: &str, raw: Vec<RawEntry>) -> (res: Result<DirectoryIndex, NotUnderRoot>)
    requires
        components(root_dir@).len() > 0,
        forall|i: int| 0 <= i < raw@.len() ==> is_under(root_dir@, (#[trigger] raw@[i]).path@),
    ensures
        res is Ok <==> is_under(root_dir@, path@),
        res matches Ok(index) ==> {
            &&& is_breadcrumb_trail(root_dir@, path@, index.breadcrumbs@)
            &&& is_listing_of(root_dir@, raw@, index.entries@)
            &&& lists_raw_entries(raw@, index.entries@)
            &&& index.sort == Sort::Directory
        },
{
    let breadcrumbs = match breadcrumbs_from_path(root_dir, path) {
        Ok(b) => b,
        Err(e) => return Err(e),
    };
    let ghost orig = raw@;
    let mut unsorted: Vec<DirectoryEntry> = Vec::new();
    for r in iter: raw.into_iter()
        invariant
            iter.seq() == orig,
            forall|i: int| 0 <= i < orig.len() ==> is_under(root_dir@, (#[trigger] orig[i]).path@),
            unsorted.len() == iter.index(),
            forall|i: int| 0 <= i < iter.index() ==> is_entry_of(root_dir@, orig[i], #[trigger] unsorted@[i]),
    {
        let ghost k = iter.index() as int;
        assert(orig[k] == r);
        let entry_path = make_dir_entry_link(root_dir, r.path.as_str());
        let entry_type = entry_type(r.display_name.as_str(), r.is_dir);
        unsorted.push(
            DirectoryEntry {
                display_name: r.display_name,
                is_dir: r.is_dir,
                size_bytes: r.size_bytes,
                entry_path,
                entry_type,
                date_created: r.date_created,
                date_modified: r.date_modified,
            },
        );
    }
    let ghost u = unsorted@;
    let entries = sort_entries(unsorted);
    assert(is_listing_of(root_dir@, orig, entries@)) by {
        assert(u.len() == orig.len());
    }
    proof {
        lemma_listing_keeps_raw_fields(root_dir@, orig, entries@);
    }
    Ok(DirectoryIndex { entries, breadcrumbs, sort: Sort::Directory })
}

/// The request path of an API call without its first three pieces
/// (`/api/v1`), joined again with `/`.
pub open spec fn api_subpath(uri_path: Seq<char>) -> Seq<char> {
    slash_joined(split_on(uri_path, '/').skip(3))
}

/// The file path an API request asks for: the part of the request path
/// after `/api/v1`, decoded as a URI path.
pub fn parse_req_uri(uri_path: &str) -> (res: String)
    requires
        split_on(uri_path@, '/').len() >= 3,
    ensures
        res@ == crate::path::pushed_all(
            seq![],
            crate::url_encode::decoded_pieces(split_on(api_subpath(uri_path@), '/')),
        ),
{
    let parts = split_chars(&chars_of(uri_path), '/');
    let ghost ps = split_on(uri_path@, '/').skip(3);
    let mut joined: Vec<char> = Vec::new();
    let mut i: usize = 3;
    assert(ps.take(0) =~= Seq::<Seq<char>>::empty());
    while i < parts.len()
        invariant
            3 <= i <= parts.len(),
            texts(parts@) == split_on(uri_path@, '/'),
            ps == split_on(uri_path@, '/').skip(3),
            joined@ == slash_joined(ps.take(i - 3)),
        decreases parts.len() - i,
    {
        let ghost before = joined@;
        if i > 3 {
            joined.push('/');
        }
        let piece = &parts[i];
        let mut j: usize = 0;
        let ghost mid = joined@;
        while j < piece.len()
            invariant
                j <= piece.len(),
                joined@ == mid + piece@.take(j as int),
            decreases piece.len() - j,
        {
            joined.push(piece[j]);
            assert(piece@.take(j + 1) =~= piece@.take(j as int).push(piece@[j as int]));
            j = j + 1;
        }
        proof {
            assert(piece@.take(piece.len() as int) =~= piece@);
            assert(ps.take(i - 3 + 1).drop_last() =~= ps.take(i - 3));
            assert(ps.take(i - 3 + 1).last() == piece@);
            assert(joined@ =~= slash_joined(ps.take(i - 3 + 1)));
        }
        i = i + 1;
    }
    assert(ps.take(parts.len() - 3) =~= ps);
    let text = crate::text::string_of(&joined);
    crate::url_encode::decode_uri(text.as_str())
}

/// The directory path of a request path under `root_dir`: the request path
/// is appended to the root, without its leading `/` and without a trailing
/// `/`.
pub open spec fn absolute_path_of(root_dir: Seq<char>, req_path: Seq<char>) -> Seq<char> {
    if req_path.len() > 0 && req_path[0] == '/' {
        let path = req_path.drop_first();
        if path.len() > 0 && path.last() == '/' {
            crate::path::path_pushed(root_dir, path.drop_last())
        } else {
            crate::path::path_pushed(root_dir, path)
        }
    } else {
        crate::path::path_pushed(root_dir, req_path)
    }
}

/// Creates the path of a request path under `root_dir` (see
/// [`absolute_path_of`]).
pub fn make_absolute_path_from_req_path(root_dir: &str, req_path: &str) -> (res: String)
    ensures
        res@ == absolute_path_of(root_dir@, req_path@),
{
    let req = chars_of(req_path);
    let mut root = chars_of(root_dir);
    if req.len() > 0 && req[0] == '/' {
        let path = crate::text::sub_chars(&req, 1, req.len());
        assert(path@ =~= req@.drop_first());
        if path.len() > 0 && path[path.len() - 1] == '/' {
            let trimmed = crate::text::sub_chars(&path, 0, path.len() - 1);
            assert(trimmed@ =~= path@.drop_last());
            crate::path::push_path(&mut root, &trimmed);
        } else {
            crate::path::push_path(&mut root, &path);
        }
    } else {
        crate::path::push_path(&mut root, &req);
    }
    crate::text::string_of(&root)
}

} // verus!
