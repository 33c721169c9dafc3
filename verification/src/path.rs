//! A model of Unix paths as character sequences: splitting into components
//! the way `std::path::Path::components` does, joining with
//! `PathBuf::push`, and the traversal-safe normalization used to keep every
//! resolved path inside a root directory.
use vstd::prelude::*;

verus! {

/// One component of a path.
pub enum Component {
    RootDir,
    CurDir,
    ParentDir,
    Normal(Seq<char>),
}

/// One component of a path, in executable form.
pub enum PathComponent {
    RootDir,
    CurDir,
    ParentDir,
    Normal(Vec<char>),
}

impl DeepView for PathComponent {
    type V = Component;

    open spec fn deep_view(&self) -> Component {
        match self {
            PathComponent::RootDir => Component::RootDir,
            PathComponent::CurDir => Component::CurDir,
            PathComponent::ParentDir => Component::ParentDir,
            PathComponent::Normal(v) => Component::Normal(v@),
        }
    }
}

/// The pieces of `s` between occurrences of `sep` (like `str::split`).
pub open spec fn split_on(s: Seq<char>, sep: char) -> Seq<Seq<char>>
    decreases s.len(),
{
    if s.len() == 0 {
        seq![Seq::<char>::empty()]
    } else {
        let r = split_on(s.drop_last(), sep);
        if s.last() == sep {
            r.push(Seq::<char>::empty())
        } else {
            r.update(r.len() - 1, r.last().push(s.last()))
        }
    }
}

/// Splitting always gives at least one piece.
pub proof fn lemma_split_on_nonempty(s: Seq<char>, sep: char)
    ensures
        split_on(s, sep).len() >= 1,
    decreases s.len(),
{
    if s.len() > 0 {
        lemma_split_on_nonempty(s.drop_last(), sep);
    }
}

/// Whether `p` is `.`.
pub open spec fn is_dot(p: Seq<char>) -> bool {
    p.len() == 1 && p[0] == '.'
}

/// Whether `p` is `..`.
pub open spec fn is_dot_dot(p: Seq<char>) -> bool {
    p.len() == 2 && p[0] == '.' && p[1] == '.'
}

/// The component that a piece between separators stands for, if any: empty
/// pieces and `.` are normalized away.
pub open spec fn piece_component(p: Seq<char>) -> Seq<Component> {
    if p.len() == 0 || is_dot(p) {
        seq![]
    } else if is_dot_dot(p) {
        seq![Component::ParentDir]
    } else {
        seq![Component::Normal(p)]
    }
}

/// The components that a sequence of pieces stands for, in order.
pub open spec fn pieces_components(ps: Seq<Seq<char>>) -> Seq<Component>
    decreases ps.len(),
{
    if ps.len() == 0 {
        seq![]
    } else {
        pieces_components(ps.drop_last()) + piece_component(ps.last())
    }
}

/// The components of a path: a leading `/` is the root, a leading `.` piece
/// of a relative path is the current directory, repeated separators and
/// other `.` pieces are dropped, and `..` is the parent directory.
pub open spec fn components(p: Seq<char>) -> Seq<Component> {
    let parts = split_on(p, '/');
    let lead = if p.len() > 0 && p[0] == '/' {
        seq![Component::RootDir]
    } else if is_dot(parts[0]) {
        seq![Component::CurDir]
    } else {
        seq![]
    };
    lead + pieces_components(parts)
}

/// The text of a component as `Path::iter` yields it.
pub open spec fn component_text(c: Component) -> Seq<char> {
    match c {
        Component::RootDir => seq!['/'],
        Component::CurDir => seq!['.'],
        Component::ParentDir => seq!['.', '.'],
        Component::Normal(s) => s,
    }
}

/// `PathBuf::push` on Unix: an absolute path replaces the buffer, otherwise
/// a separator is added when the buffer is non-empty and does not already
/// end with one.
pub open spec fn path_pushed(buf: Seq<char>, p: Seq<char>) -> Seq<char> {
    if p.len() > 0 && p[0] == '/' {
        p
    } else if buf.len() == 0 || buf.last() == '/' {
        buf + p
    } else {
        buf.push('/') + p
    }
}

/// Pushing every element of `names`, in order, onto `base`.
pub open spec fn pushed_all(base: Seq<char>, names: Seq<Seq<char>>) -> Seq<char>
    decreases names.len(),
{
    if names.len() == 0 {
        base
    } else {
        path_pushed(pushed_all(base, names.drop_last()), names.last())
    }
}

/// The traversal-safe normalization: `..` removes the last kept name (if
/// any), names are kept, the root and `.` are dropped.
pub open spec fn normalized(cs: Seq<Component>) -> Seq<Seq<char>>
    decreases cs.len(),
{
    if cs.len() == 0 {
        seq![]
    } else {
        let r = normalized(cs.drop_last());
        match cs.last() {
            Component::ParentDir => if r.len() > 0 {
                r.drop_last()
            } else {
                r
            },
            Component::Normal(x) => r.push(x),
            _ => r,
        }
    }
}

/// A name that is a single plain path component: non-empty, without `/`,
/// and neither `.` nor `..`.
pub open spec fn is_plain_name(n: Seq<char>) -> bool {
    &&& n.len() > 0
    &&& !n.contains('/')
    &&& !is_dot(n)
    &&& !is_dot_dot(n)
}

/// The texts held by a vector of character vectors.
pub open spec fn texts(v: Seq<Vec<char>>) -> Seq<Seq<char>> {
    Seq::new(v.len(), |i: int| v[i]@)
}

/// The pieces of `s` between occurrences of `sep` (see [`split_on`]).
pub fn split_chars(s: &Vec<char>, sep: char) -> (res: Vec<Vec<char>>)
    ensures
        texts(res@) == split_on(s@, sep),
{
    let mut res: Vec<Vec<char>> = Vec::new();
    res.push(Vec::new());
    let mut i: usize = 0;
    assert(s@.take(0) =~= Seq::<char>::empty());
    assert(texts(res@) =~= split_on(s@.take(0), sep));
    while i < s.len()
        invariant
            i <= s.len(),
            texts(res@) == split_on(s@.take(i as int), sep),
            res.len() >= 1,
        decreases s.len() - i,
    {
        let c = s[i];
        proof {
            assert(s@.take(i + 1).drop_last() =~= s@.take(i as int));
            assert(s@.take(i + 1).last() == c);
        }
        if c == sep {
            res.push(Vec::new());
            proof {
                assert(texts(res@) =~= split_on(s@.take(i + 1), sep));
            }
        } else {
            let last = res.len() - 1;
            let mut piece = res.pop().unwrap();
            piece.push(c);
            res.push(piece);
            proof {
                assert(texts(res@) =~= split_on(s@.take(i + 1), sep));
            }
        }
        i = i + 1;
    }
    assert(s@.take(s.len() as int) =~= s@);
    res
}

/// The views of a vector of executable components.
pub open spec fn comps_view(v: Seq<PathComponent>) -> Seq<Component> {
    Seq::new(v.len(), |i: int| v[i].deep_view())
}

/// A copy of a character vector.
pub fn copy_chars(v: &Vec<char>) -> (res: Vec<char>)
    ensures
        res@ == v@,
{
    let mut res: Vec<char> = Vec::new();
    let mut i: usize = 0;
    while i < v.len()
        invariant
            i <= v.len(),
            res@ == v@.take(i as int),
        decreases v.len() - i,
    {
        res.push(v[i]);
        assert(v@.take(i + 1) =~= v@.take(i as int).push(v@[i as int]));
        i = i + 1;
    }
    assert(v@.take(v.len() as int) =~= v@);
    res
}

fn piece_is_dot(p: &Vec<char>) -> (r: bool)
    ensures
        r == is_dot(p@),
{
    p.len() == 1 && p[0] == '.'
}

fn piece_is_dot_dot(p: &Vec<char>) -> (r: bool)
    ensures
        r == is_dot_dot(p@),
{
    p.len() == 2 && p[0] == '.' && p[1] == '.'
}

/// The components of `path` (see [`components`]).
pub fn path_components(path: &Vec<char>) -> (res: Vec<PathComponent>)
    ensures
        comps_view(res@) == components(path@),
{
    let parts = split_chars(path, '/');
    proof {
        lemma_split_on_nonempty(path@, '/');
    }
    let mut res: Vec<PathComponent> = Vec::new();
    if path.len() > 0 && path[0] == '/' {
        res.push(PathComponent::RootDir);
    } else if piece_is_dot(&parts[0]) {
        res.push(PathComponent::CurDir);
    }
    let ghost lead = comps_view(res@);
    let mut i: usize = 0;
    assert(pieces_components(texts(parts@).take(0)) =~= Seq::<Component>::empty());
    while i < parts.len()
        invariant
            i <= parts.len(),
            texts(parts@) == split_on(path@, '/'),
            comps_view(res@) == lead + pieces_components(texts(parts@).take(i as int)),
            lead == (if path@.len() > 0 && path@[0] == '/' {
                seq![Component::RootDir]
            } else if is_dot(split_on(path@, '/')[0]) {
                seq![Component::CurDir]
            } else {
                seq![]
            }),
        decreases parts.len() - i,
    {
        let piece = &parts[i];
        let ghost before = comps_view(res@);
        proof {
            assert(texts(parts@).take(i + 1).drop_last() =~= texts(parts@).take(i as int));
            assert(texts(parts@)[i as int] == piece@);
        }
        if piece.len() == 0 || piece_is_dot(piece) {
        } else if piece_is_dot_dot(piece) {
            res.push(PathComponent::ParentDir);
        } else {
            res.push(PathComponent::Normal(copy_chars(piece)));
        }
        proof {
            assert(comps_view(res@) =~= before + piece_component(piece@));
        }
        i = i + 1;
    }
    assert(texts(parts@).take(parts.len() as int) =~= texts(parts@));
    res
}

/// The names that [`normalized`] keeps for the components `cs`.
pub fn normalized_names(cs: &Vec<PathComponent>) -> (res: Vec<Vec<char>>)
    ensures
        texts(res@) == normalized(comps_view(cs@)),
{
    let mut res: Vec<Vec<char>> = Vec::new();
    let mut i: usize = 0;
    assert(comps_view(cs@).take(0) =~= Seq::<Component>::empty());
    while i < cs.len()
        invariant
            i <= cs.len(),
            texts(res@) == normalized(comps_view(cs@).take(i as int)),
        decreases cs.len() - i,
    {
        let ghost before = texts(res@);
        proof {
            assert(comps_view(cs@).take(i + 1).drop_last() =~= comps_view(cs@).take(i as int));
            assert(comps_view(cs@).take(i + 1).last() == cs@[i as int].deep_view());
        }
        match &cs[i] {
            PathComponent::ParentDir => {
                if res.len() > 0 {
                    res.pop();
                    assert(texts(res@) =~= before.drop_last());
                }
            },
            PathComponent::Normal(x) => {
                res.push(copy_chars(x));
                assert(texts(res@) =~= before.push(x@));
            },
            _ => {},
        }
        i = i + 1;
    }
    assert(comps_view(cs@).take(cs.len() as int) =~= comps_view(cs@));
    res
}

/// `PathBuf::push` (see [`path_pushed`]).
pub fn push_path(buf: &mut Vec<char>, p: &Vec<char>)
    ensures
        final(buf)@ == path_pushed(old(buf)@, p@),
{
    if p.len() > 0 && p[0] == '/' {
        *buf = copy_chars(p);
        return ;
    }
    if buf.len() > 0 && buf[buf.len() - 1] != '/' {
        buf.push('/');
    }
    let ghost start = buf@;
    let mut i: usize = 0;
    while i < p.len()
        invariant
            i <= p.len(),
            buf@ == start + p@.take(i as int),
        decreases p.len() - i,
    {
        buf.push(p[i]);
        assert(p@.take(i + 1) =~= p@.take(i as int).push(p@[i as int]));
        i = i + 1;
    }
    assert(p@.take(p.len() as int) =~= p@);
}

/// Pushes every name of `names` onto `buf` (see [`pushed_all`]).
pub fn push_all(buf: &mut Vec<char>, names: &Vec<Vec<char>>)
    ensures
        final(buf)@ == pushed_all(old(buf)@, texts(names@)),
{
    let ghost start = buf@;
    let mut i: usize = 0;
    assert(texts(names@).take(0) =~= Seq::<Seq<char>>::empty());
    while i < names.len()
        invariant
            i <= names.len(),
            buf@ == pushed_all(start, texts(names@).take(i as int)),
        decreases names.len() - i,
    {
        assert(texts(names@).take(i + 1).drop_last() =~= texts(names@).take(i as int));
        push_path(buf, &names[i]);
        i = i + 1;
    }
    assert(texts(names@).take(names.len() as int) =~= texts(names@));
}

/// The separator that pushing a relative name onto `base` inserts.
pub open spec fn separator_after(base: Seq<char>) -> Seq<char> {
    if base.len() == 0 || base.last() == '/' {
        seq![]
    } else {
        seq!['/']
    }
}

proof fn lemma_split_pieces_have_no_sep(s: Seq<char>, sep: char)
    ensures
        forall|i: int|
            0 <= i < split_on(s, sep).len() ==> !(#[trigger] split_on(s, sep)[i]).contains(sep),
    decreases s.len(),
{
    if s.len() > 0 {
        let r = split_on(s.drop_last(), sep);
        lemma_split_pieces_have_no_sep(s.drop_last(), sep);
        lemma_split_on_nonempty(s.drop_last(), sep);
        if s.last() != sep {
            let l = r.last().push(s.last());
            assert forall|k: int| 0 <= k < l.len() implies l[k] != sep by {
                if k < r.last().len() {
                    assert(r[r.len() - 1][k] != sep);
                }
            }
        }
    }
}

proof fn lemma_pieces_components_plain(ps: Seq<Seq<char>>)
    requires
        forall|i: int| 0 <= i < ps.len() ==> !(#[trigger] ps[i]).contains('/'),
    ensures
        forall|i: int|
            0 <= i < pieces_components(ps).len() ==> (#[trigger] pieces_components(ps)[i] matches Component::Normal(n) ==> is_plain_name(n)),
    decreases ps.len(),
{
    if ps.len() > 0 {
        lemma_pieces_components_plain(ps.drop_last());
        assert(!ps[ps.len() - 1].contains('/'));
    }
}

pub(crate) proof fn lemma_components_plain(p: Seq<char>)
    ensures
        forall|i: int|
            0 <= i < components(p).len() ==> (#[trigger] components(p)[i] matches Component::Normal(n) ==> is_plain_name(n)),
{
    let parts = split_on(p, '/');
    lemma_split_pieces_have_no_sep(p, '/');
    lemma_pieces_components_plain(parts);
    let lead = if p.len() > 0 && p[0] == '/' {
        seq![Component::RootDir]
    } else if is_dot(parts[0]) {
        seq![Component::CurDir]
    } else {
        seq![]
    };
    assert forall|i: int| 0 <= i < components(p).len() implies (#[trigger] components(p)[i] matches Component::Normal(n) ==> is_plain_name(n)) by {
        if i >= lead.len() {
            assert(components(p)[i] == pieces_components(parts)[i - lead.len()]);
        }
    }
}

proof fn lemma_normalized_plain(cs: Seq<Component>)
    requires
        forall|i: int| 0 <= i < cs.len() ==> (#[trigger] cs[i] matches Component::Normal(n) ==> is_plain_name(n)),
    ensures
        forall|i: int| 0 <= i < normalized(cs).len() ==> is_plain_name(#[trigger] normalized(cs)[i]),
    decreases cs.len(),
{
    if cs.len() > 0 {
        let prev = cs.drop_last();
        assert forall|i: int| 0 <= i < prev.len() implies (#[trigger] prev[i] matches Component::Normal(n) ==> is_plain_name(n)) by {
            assert(prev[i] == cs[i]);
        }
        lemma_normalized_plain(prev);
        let r = normalized(prev);
        assert(cs[cs.len() - 1] == cs.last());
        match cs.last() {
            Component::ParentDir => {
                if r.len() > 0 {
                    assert forall|i: int| 0 <= i < r.drop_last().len() implies is_plain_name(#[trigger] r.drop_last()[i]) by {
                        assert(r.drop_last()[i] == r[i]);
                    }
                }
            },
            Component::Normal(x) => {
                assert forall|i: int| 0 <= i < r.push(x).len() implies is_plain_name(#[trigger] r.push(x)[i]) by {
                    if i < r.len() {
                        assert(r.push(x)[i] == r[i]);
                    }
                }
            },
            _ => {},
        }
    }
}

/// Every name that normalization keeps is a plain name.
pub proof fn lemma_normalized_names_plain(p: Seq<char>)
    ensures
        forall|i: int|
            0 <= i < normalized(components(p)).len() ==> is_plain_name(
                #[trigger] normalized(components(p))[i],
            ),
{
    lemma_components_plain(p);
    lemma_normalized_plain(components(p));
}

proof fn lemma_joined_shape(ns: Seq<Seq<char>>)
    requires
        ns.len() > 0,
        forall|i: int| 0 <= i < ns.len() ==> is_plain_name(#[trigger] ns[i]),
    ensures
        pushed_all(seq![], ns).len() > 0,
        pushed_all(seq![], ns)[0] == ns[0][0],
        pushed_all(seq![], ns).last() == ns.last().last(),
        ns.len() == 1 ==> pushed_all(seq![], ns) == ns[0],
        ns.len() > 1 ==> pushed_all(seq![], ns) == pushed_all(seq![], ns.drop_last()).push('/') + ns.last(),
    decreases ns.len(),
{
    let n = ns.last();
    assert(is_plain_name(ns[ns.len() - 1]));
    if ns.len() == 1 {
        assert(pushed_all(seq![], ns.drop_last()) =~= Seq::<char>::empty());
        assert(n[0] != '/') by {
            if n[0] == '/' {
                assert(n.contains('/'));
            }
        }
        assert(Seq::<char>::empty() + n =~= n);
    } else {
        let prev = ns.drop_last();
        assert forall|i: int| 0 <= i < prev.len() implies is_plain_name(#[trigger] prev[i]) by {
            assert(prev[i] == ns[i]);
        }
        lemma_joined_shape(prev);
        let pp = pushed_all(seq![], prev);
        let l = prev.last();
        assert(is_plain_name(prev[prev.len() - 1]));
        assert(l.last() != '/') by {
            if l.last() == '/' {
                assert(l.contains('/'));
            }
        }
        assert(n[0] != '/') by {
            if n[0] == '/' {
                assert(n.contains('/'));
            }
        }
        assert(prev[0] == ns[0]);
    }
}

proof fn lemma_split_no_sep(s: Seq<char>, sep: char)
    requires
        !s.contains(sep),
    ensures
        split_on(s, sep) == seq![s],
    decreases s.len(),
{
    if s.len() > 0 {
        assert(!s.drop_last().contains(sep)) by {
            if s.drop_last().contains(sep) {
                let k = choose|k: int| 0 <= k < s.drop_last().len() && s.drop_last()[k] == sep;
                assert(s[k] == sep);
            }
        }
        lemma_split_no_sep(s.drop_last(), sep);
        assert(s.last() != sep) by {
            assert(s[s.len() - 1] == s.last());
        }
        assert(s.drop_last().push(s.last()) =~= s);
    } else {
        assert(s =~= Seq::<char>::empty());
    }
}

proof fn lemma_split_concat(x: Seq<char>, y: Seq<char>, sep: char)
    ensures
        split_on(x.push(sep) + y, sep) == split_on(x, sep) + split_on(y, sep),
    decreases y.len(),
{
    if y.len() == 0 {
        assert(x.push(sep) + y =~= x.push(sep));
        assert(x.push(sep).drop_last() =~= x);
        assert(split_on(x, sep) + seq![Seq::<char>::empty()] =~= split_on(x, sep).push(
            Seq::<char>::empty(),
        ));
    } else {
        let y1 = y.drop_last();
        lemma_split_concat(x, y1, sep);
        lemma_split_on_nonempty(y1, sep);
        lemma_split_on_nonempty(x, sep);
        let whole = x.push(sep) + y;
        assert(whole.drop_last() =~= x.push(sep) + y1);
        assert(whole.last() == y.last());
        let a = split_on(x, sep);
        let b = split_on(y1, sep);
        if y.last() == sep {
            assert((a + b).push(Seq::<char>::empty()) =~= a + b.push(Seq::<char>::empty()));
        } else {
            assert((a + b).update((a + b).len() - 1, (a + b).last().push(y.last())) =~= a + b.update(
                b.len() - 1,
                b.last().push(y.last()),
            ));
        }
    }
}

proof fn lemma_split_joined(ns: Seq<Seq<char>>)
    requires
        ns.len() > 0,
        forall|i: int| 0 <= i < ns.len() ==> is_plain_name(#[trigger] ns[i]),
    ensures
        split_on(pushed_all(seq![], ns), '/') == ns,
    decreases ns.len(),
{
    lemma_joined_shape(ns);
    assert(is_plain_name(ns[ns.len() - 1]));
    lemma_split_no_sep(ns.last(), '/');
    if ns.len() == 1 {
        assert(seq![ns[0]] =~= ns);
    } else {
        let prev = ns.drop_last();
        assert forall|i: int| 0 <= i < prev.len() implies is_plain_name(#[trigger] prev[i]) by {
            assert(prev[i] == ns[i]);
        }
        lemma_split_joined(prev);
        lemma_split_concat(pushed_all(seq![], prev), ns.last(), '/');
        assert(prev + seq![ns.last()] =~= ns);
    }
}

proof fn lemma_pieces_of_plain(ns: Seq<Seq<char>>)
    requires
        forall|i: int| 0 <= i < ns.len() ==> is_plain_name(#[trigger] ns[i]),
    ensures
        pieces_components(ns) == ns.map_values(|n: Seq<char>| Component::Normal(n)),
    decreases ns.len(),
{
    if ns.len() > 0 {
        let prev = ns.drop_last();
        assert forall|i: int| 0 <= i < prev.len() implies is_plain_name(#[trigger] prev[i]) by {
            assert(prev[i] == ns[i]);
        }
        lemma_pieces_of_plain(prev);
        assert(is_plain_name(ns[ns.len() - 1]));
        assert(ns.map_values(|n: Seq<char>| Component::Normal(n)) =~= prev.map_values(
            |n: Seq<char>| Component::Normal(n),
        ) + seq![Component::Normal(ns.last())]);
    } else {
        assert(ns.map_values(|n: Seq<char>| Component::Normal(n)) =~= Seq::<Component>::empty());
    }
}

/// Joined plain names read back as exactly those names, each a normal
/// component: no root, no `.`, no `..`.
pub proof fn lemma_components_of_joined(ns: Seq<Seq<char>>)
    requires
        forall|i: int| 0 <= i < ns.len() ==> is_plain_name(#[trigger] ns[i]),
    ensures
        components(pushed_all(seq![], ns)) == ns.map_values(|n: Seq<char>| Component::Normal(n)),
{
    let p = pushed_all(seq![], ns);
    lemma_pieces_of_plain(ns);
    if ns.len() == 0 {
        assert(split_on(p, '/') =~= seq![Seq::<char>::empty()]);
        let e = Seq::<char>::empty();
        let one = seq![e];
        assert(one.drop_last() =~= Seq::<Seq<char>>::empty());
        assert(one.last() == e);
        assert(piece_component(e) =~= Seq::<Component>::empty());
        assert(pieces_components(one.drop_last()) =~= Seq::<Component>::empty());
        assert(pieces_components(one) =~= Seq::<Component>::empty());
        assert(components(p) =~= Seq::<Component>::empty());
        assert(ns.map_values(|n: Seq<char>| Component::Normal(n)) =~= Seq::<Component>::empty());
    } else {
        lemma_split_joined(ns);
        lemma_joined_shape(ns);
        assert(is_plain_name(ns[0]));
        assert(ns[0][0] != '/') by {
            if ns[0][0] == '/' {
                assert(ns[0].contains('/'));
            }
        }
        assert(components(p) =~= pieces_components(ns));
    }
}

proof fn lemma_normalized_of_normals(ns: Seq<Seq<char>>)
    ensures
        normalized(ns.map_values(|n: Seq<char>| Component::Normal(n))) == ns,
    decreases ns.len(),
{
    let cs = ns.map_values(|n: Seq<char>| Component::Normal(n));
    if ns.len() > 0 {
        lemma_normalized_of_normals(ns.drop_last());
        assert(cs.drop_last() =~= ns.drop_last().map_values(|n: Seq<char>| Component::Normal(n)));
        assert(ns.drop_last().push(ns.last()) =~= ns);
    } else {
        assert(ns =~= Seq::<Seq<char>>::empty());
    }
}

/// Normalizing an already normalized path changes nothing.
pub proof fn lemma_normalize_idempotent(p: Seq<char>)
    ensures
        normalized(components(pushed_all(seq![], normalized(components(p))))) == normalized(
            components(p),
        ),
{
    let ns = normalized(components(p));
    lemma_normalized_names_plain(p);
    lemma_components_of_joined(ns);
    lemma_normalized_of_normals(ns);
}

proof fn lemma_pushed_all_from_base(base: Seq<char>, ns: Seq<Seq<char>>)
    requires
        ns.len() > 0,
        forall|i: int| 0 <= i < ns.len() ==> is_plain_name(#[trigger] ns[i]),
    ensures
        pushed_all(base, ns) == base + separator_after(base) + pushed_all(seq![], ns),
    decreases ns.len(),
{
    lemma_joined_shape(ns);
    let n = ns.last();
    assert(is_plain_name(ns[ns.len() - 1]));
    assert(n[0] != '/') by {
        if n[0] == '/' {
            assert(n.contains('/'));
        }
    }
    if ns.len() == 1 {
        assert(pushed_all(base, ns.drop_last()) == base);
        assert(base.push('/') + n =~= base + seq!['/'] + n);
        assert(base + n =~= base + Seq::<char>::empty() + n);
    } else {
        let prev = ns.drop_last();
        assert forall|i: int| 0 <= i < prev.len() implies is_plain_name(#[trigger] prev[i]) by {
            assert(prev[i] == ns[i]);
        }
        lemma_pushed_all_from_base(base, prev);
        lemma_joined_shape(prev);
        let jp = pushed_all(seq![], prev);
        let whole = base + separator_after(base) + jp;
        assert(whole.last() == jp.last());
        assert(is_plain_name(prev[prev.len() - 1]));
        assert(jp.last() != '/') by {
            if prev.last().last() == '/' {
                assert(prev.last().contains('/'));
            }
        }
        assert(whole.push('/') + n =~= base + separator_after(base) + (jp.push('/') + n));
    }
}

/// A path resolved against a root stays under that root: the result is the
/// root, then (when anything is appended) the separator the root needs, then
/// the joined normalized names, each a plain name, which read back as normal
/// components only, so no `..` can climb out of the root.
pub proof fn lemma_resolved_path_stays_under_root(root: Seq<char>, path: Seq<char>)
    ensures
        ({
            let ns = normalized(components(path));
            let r = pushed_all(root, ns);
            &&& forall|i: int| 0 <= i < ns.len() ==> is_plain_name(#[trigger] ns[i])
            &&& r.len() >= root.len()
            &&& r.take(root.len() as int) == root
            &&& ns.len() == 0 ==> r == root
            &&& ns.len() > 0 ==> r == root + separator_after(root) + pushed_all(seq![], ns)
            &&& components(pushed_all(seq![], ns)) == ns.map_values(
                |n: Seq<char>| Component::Normal(n),
            )
        }),
{
    let ns = normalized(components(path));
    lemma_normalized_names_plain(path);
    lemma_components_of_joined(ns);
    if ns.len() > 0 {
        lemma_pushed_all_from_base(root, ns);
        let r = pushed_all(root, ns);
        assert(r.take(root.len() as int) =~= root);
    } else {
        assert(root.take(root.len() as int) =~= root);
    }
}

/// Splitting a text after a separator and a piece free of separators adds
/// that piece to the pieces of the text.
pub(crate) proof fn lemma_split_after_sep(s: Seq<char>, t: Seq<char>, sep: char)
    requires
        !t.contains(sep),
    ensures
        split_on(s + seq![sep] + t, sep) == split_on(s, sep).push(t),
    decreases t.len(),
{
    let u = s + seq![sep] + t;
    if t.len() == 0 {
        assert(u.drop_last() =~= s);
        assert(u.last() == sep);
        assert(t =~= Seq::<char>::empty());
    } else {
        assert(u.last() == t.last());
        let t0 = t.drop_last();
        assert(!t0.contains(sep)) by {
            if t0.contains(sep) {
                let k = choose|k: int| 0 <= k < t0.len() && t0[k] == sep;
                assert(t[k] == sep);
            }
        }
        lemma_split_after_sep(s, t0, sep);
        assert(u.drop_last() =~= s + seq![sep] + t0);
        assert(t[t.len() - 1] != sep);
        assert(t0.push(t.last()) =~= t);
        assert(split_on(s, sep).push(t0).update(split_on(s, sep).len() as int, t) =~= split_on(
            s,
            sep,
        ).push(t));
    }
}

/// A text without the separator is a single piece.
pub(crate) proof fn lemma_split_single(s: Seq<char>, sep: char)
    requires
        !s.contains(sep),
    ensures
        split_on(s, sep) == seq![s],
    decreases s.len(),
{
    if s.len() > 0 {
        let s0 = s.drop_last();
        assert(!s0.contains(sep)) by {
            if s0.contains(sep) {
                let k = choose|k: int| 0 <= k < s0.len() && s0[k] == sep;
                assert(s[k] == sep);
            }
        }
        lemma_split_single(s0, sep);
        assert(s[s.len() - 1] != sep);
        assert(s0.push(s.last()) =~= s);
        assert(seq![s0].update(0, s0.push(s.last())) =~= seq![s]);
    } else {
        assert(s =~= Seq::<char>::empty());
    }
}

/// Appending `/` and a piece free of `/` to a non-empty path appends that
/// piece's components to the path's components.
proof fn lemma_components_after_piece(p: Seq<char>, t: Seq<char>)
    requires
        p.len() > 0,
        !t.contains('/'),
    ensures
        components(p + seq!['/'] + t) == components(p) + piece_component(t),
{
    let q = p + seq!['/'] + t;
    let parts = split_on(p, '/');
    lemma_split_after_sep(p, t, '/');
    lemma_split_on_nonempty(p, '/');
    assert(split_on(q, '/') == parts.push(t));
    assert(parts.push(t)[0] == parts[0]);
    assert(q[0] == p[0]);
    assert(parts.push(t).drop_last() =~= parts);
    let lead = if p.len() > 0 && p[0] == '/' {
        seq![Component::RootDir]
    } else if is_dot(parts[0]) {
        seq![Component::CurDir]
    } else {
        seq![]
    };
    assert(components(q) == lead + (pieces_components(parts) + piece_component(t)));
    assert(lead + (pieces_components(parts) + piece_component(t)) =~= lead + pieces_components(parts)
        + piece_component(t));
}

/// Every `..` undoes the latest name that normalization kept: for a
/// non-empty path `p`, `p/..` normalizes to the names of `p` without the
/// last one (or to nothing when `p` keeps no name), whatever came before.
pub proof fn lemma_parent_pops_last_name(p: Seq<char>)
    requires
        p.len() > 0,
    ensures
        normalized(components(p + seq!['/', '.', '.'])) == (if normalized(components(p)).len() > 0 {
            normalized(components(p)).drop_last()
        } else {
            normalized(components(p))
        }),
{
    let dd = seq!['.', '.'];
    assert(!dd.contains('/')) by {
        if dd.contains('/') {
            let k = choose|k: int| 0 <= k < dd.len() && dd[k] == '/';
        }
    }
    assert(p + seq!['/', '.', '.'] =~= p + seq!['/'] + dd);
    lemma_components_after_piece(p, dd);
    assert(piece_component(dd) == seq![Component::ParentDir]);
    let cs = components(p);
    assert(cs + seq![Component::ParentDir] =~= cs.push(Component::ParentDir));
    assert(cs.push(Component::ParentDir).drop_last() =~= cs);
}

/// A plain name appended to a non-empty path is kept by normalization,
/// after the names of the path.
pub proof fn lemma_name_is_kept(p: Seq<char>, n: Seq<char>)
    requires
        p.len() > 0,
        is_plain_name(n),
    ensures
        normalized(components(p + seq!['/'] + n)) == normalized(components(p)).push(n),
{
    lemma_components_after_piece(p, n);
    assert(piece_component(n) == seq![Component::Normal(n)]);
    let cs = components(p);
    assert(cs + seq![Component::Normal(n)] =~= cs.push(Component::Normal(n)));
    assert(cs.push(Component::Normal(n)).drop_last() =~= cs);
}

/// A `.` appended to a non-empty path changes nothing normalization keeps.
pub proof fn lemma_dot_is_dropped(p: Seq<char>)
    requires
        p.len() > 0,
    ensures
        normalized(components(p + seq!['/', '.'])) == normalized(components(p)),
{
    let d = seq!['.'];
    assert(!d.contains('/')) by {
        if d.contains('/') {
            let k = choose|k: int| 0 <= k < d.len() && d[k] == '/';
        }
    }
    assert(p + seq!['/', '.'] =~= p + seq!['/'] + d);
    lemma_components_after_piece(p, d);
    assert(piece_component(d) == Seq::<Component>::empty());
    assert(components(p) + Seq::<Component>::empty() =~= components(p));
}

} // verus!
