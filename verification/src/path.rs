//! Paths as text: their components, and the directory, stem and extension of a file.
//!
//! Components are separated by slashes. Empty ones and single dots do not count, but for a
//! dot that a relative path starts with. Two paths are the same when their components are.
use crate::text;
use crate::text::{chars_of, slice_text, str_eq};
use vstd::prelude::*;

verus! {

/// A path taken apart.
#[verifier::ext_equal]
pub struct PathModel {
    pub absolute: bool,
    pub parts: Seq<Seq<char>>,
}

pub open spec fn counts(seg: Seq<char>) -> bool {
    seg.len() > 0 && seg != "."@
}

/// The components of a path.
pub open spec fn parsed(s: Seq<char>) -> PathModel {
    let segs = text::split_on(s, '/');
    let kept = segs.filter(|g: Seq<char>| counts(g));
    PathModel {
        absolute: s.len() > 0 && s[0] == '/',
        parts: if segs.len() > 0 && segs[0] == "."@ {
            seq!["."@] + kept
        } else {
            kept
        },
    }
}

/// The components of a path.
#[derive(Debug)]
pub struct PathParts {
    pub absolute: bool,
    pub parts: Vec<String>,
}

impl View for PathParts {
    type V = PathModel;

    open spec fn view(&self) -> PathModel {
        PathModel { absolute: self.absolute, parts: text::texts(self.parts@) }
    }
}

/// Takes a path apart.
pub fn components(s: &str) -> (r: PathParts)
    ensures
        r@ == parsed(s@),
{
    let v = chars_of(s);
    let absolute = v.len() > 0 && v[0] == '/';
    let segs = text::split(&v, '/');
    let ghost all = text::texts(segs@);
    let ghost p = |g: Seq<char>| counts(g);
    let mut parts: Vec<String> = Vec::new();
    if segs.len() > 0 && str_eq(segs[0].as_str(), ".") {
        let dot = ".".to_owned();
        parts.push(dot);
        proof {
            assert(text::texts(parts@) =~= seq!["."@]);
        }
    }
    let ghost lead = text::texts(parts@);
    proof {
        if !(all.len() > 0 && all[0] == "."@) {
            assert(lead =~= seq![]);
        }
    }
    let mut i: usize = 0;
    proof {
        reveal(Seq::filter);
        assert(lead + all.take(0).filter(p) =~= lead);
    }
    while i < segs.len()
        invariant
            i <= segs@.len(),
            all == text::texts(segs@),
            p == (|g: Seq<char>| counts(g)),
            text::texts(parts@) == lead + all.take(i as int).filter(p),
        decreases segs@.len() - i,
    {
        proof {
            reveal(Seq::filter);
            assert(all.take(i + 1).drop_last() =~= all.take(i as int));
            assert(all.take(i + 1).last() == segs@[i as int]@);
        }
        if !segs[i].as_str().is_empty() && !str_eq(segs[i].as_str(), ".") {
            let g = segs[i].clone();
            proof {
                text::lemma_texts_push(parts@, g);
                assert((lead + all.take(i as int).filter(p)).push(g@) =~= lead + all.take(
                    i as int,
                ).filter(p).push(g@));
            }
            parts.push(g);
        }
        i += 1;
    }
    proof {
        assert(all.take(all.len() as int) =~= all);
        assert(seq![] + all.filter(p) =~= all.filter(p));
    }
    PathParts { absolute, parts }
}

/// Whether two paths are the same.
pub open spec fn same(a: Seq<char>, b: Seq<char>) -> bool {
    parsed(a) == parsed(b)
}

/// Whether the components of `p` start with those of `base`.
pub open spec fn within(p: PathModel, base: PathModel) -> bool {
    &&& p.absolute == base.absolute
    &&& base.parts.len() <= p.parts.len()
    &&& p.parts.take(base.parts.len() as int) == base.parts
}

fn parts_agree(a: &Vec<String>, b: &Vec<String>, n: usize) -> (r: bool)
    requires
        n <= a@.len(),
        n <= b@.len(),
    ensures
        r == (text::texts(a@).take(n as int) == text::texts(b@).take(n as int)),
{
    let mut i: usize = 0;
    while i < n
        invariant
            i <= n <= a@.len(),
            n <= b@.len(),
            forall|k: int| 0 <= k < i ==> (#[trigger] a@[k])@ == b@[k]@,
        decreases n - i,
    {
        if !str_eq(a[i].as_str(), b[i].as_str()) {
            proof {
                assert(text::texts(a@).take(n as int)[i as int] == a@[i as int]@);
                assert(text::texts(b@).take(n as int)[i as int] == b@[i as int]@);
            }
            return false;
        }
        i += 1;
    }
    proof {
        assert(text::texts(a@).take(n as int) =~= text::texts(b@).take(n as int));
    }
    true
}

/// Whether two paths are the same.
pub fn same_path(a: &str, b: &str) -> (r: bool)
    ensures
        r == same(a@, b@),
{
    let x = components(a);
    let y = components(b);
    if x.absolute != y.absolute || x.parts.len() != y.parts.len() {
        proof {
            if x@ == y@ {
                assert(x@.parts.len() == y@.parts.len());
            }
        }
        return false;
    }
    let n = x.parts.len();
    proof {
        assert(x@.parts.take(n as int) =~= x@.parts);
        assert(y@.parts.take(n as int) =~= y@.parts);
    }
    parts_agree(&x.parts, &y.parts, n)
}

/// Whether the path `p` is `base` or lies below it.
pub fn starts_with(p: &str, base: &str) -> (r: bool)
    ensures
        r == within(parsed(p@), parsed(base@)),
{
    let x = components(p);
    let y = components(base);
    if x.absolute != y.absolute || x.parts.len() < y.parts.len() {
        return false;
    }
    let n = y.parts.len();
    proof {
        assert(y@.parts.take(n as int) =~= y@.parts);
    }
    parts_agree(&x.parts, &y.parts, n)
}

/// A path without the slashes and single dots at its end. A root stays, and so does a dot that
/// the path starts with.
pub open spec fn end_trimmed(s: Seq<char>) -> Seq<char>
    decreases s.len(),
{
    if s.len() > 1 && (s.last() == '/' || (s.last() == '.' && s[s.len() - 2] == '/')) {
        end_trimmed(s.drop_last())
    } else {
        s
    }
}

/// A path up to its last slash.
pub open spec fn to_last_slash(s: Seq<char>) -> Seq<char>
    decreases s.len(),
{
    if s.len() == 0 || s.last() == '/' {
        s
    } else {
        to_last_slash(s.drop_last())
    }
}

/// The directory that holds a path, as the path writes it; a root and an empty path have none.
pub open spec fn parent_of(s: Seq<char>) -> Option<Seq<char>> {
    let t = end_trimmed(s);
    if t.len() == 0 || t == "/"@ {
        None
    } else {
        Some(end_trimmed(to_last_slash(t)))
    }
}

fn trimmed_len(v: &[char], len: usize) -> (n: usize)
    requires
        len <= v@.len(),
    ensures
        n <= len,
        v@.take(n as int) == end_trimmed(v@.take(len as int)),
{
    let mut n: usize = len;
    while n > 1 && (v[n - 1] == '/' || (v[n - 1] == '.' && v[n - 2] == '/'))
        invariant
            n <= len <= v@.len(),
            end_trimmed(v@.take(n as int)) == end_trimmed(v@.take(len as int)),
        decreases n,
    {
        proof {
            assert(v@.take(n as int).drop_last() =~= v@.take(n - 1));
        }
        n -= 1;
    }
    n
}

/// The directory that holds a path, as the path writes it; a root and an empty path have none.
pub fn parent(s: &str) -> (r: Option<String>)
    ensures
        match r {
            Some(t) => parent_of(s@) == Some(t@),
            None => parent_of(s@) is None,
        },
{
    let v = chars_of(s);
    proof {
        assert(v@.take(v@.len() as int) =~= v@);
        reveal_strlit("/");
    }
    let len = trimmed_len(&v, v.len());
    let ghost t = v@.take(len as int);
    if len == 0 || (len == 1 && v[0] == '/') {
        proof {
            if len == 1 {
                assert(t =~= "/"@);
            }
        }
        return None;
    }
    let mut n: usize = len;
    while n > 0 && v[n - 1] != '/'
        invariant
            n <= len <= v@.len(),
            to_last_slash(v@.take(n as int)) == to_last_slash(v@.take(len as int)),
        decreases n,
    {
        proof {
            assert(v@.take(n as int).drop_last() =~= v@.take(n - 1));
        }
        n -= 1;
    }
    let up = trimmed_len(&v, n);
    proof {
        assert(v@.subrange(0, up as int) =~= v@.take(up as int));
    }
    Some(slice_text(&v, 0, up))
}

proof fn lemma_one_piece(g: Seq<char>)
    ensures
        seq![g].filter(|x: Seq<char>| counts(x)) == if counts(g) {
            seq![g]
        } else {
            Seq::<Seq<char>>::empty()
        },
{
    let p = |x: Seq<char>| counts(x);
    let none = Seq::<Seq<char>>::empty();
    reveal(Seq::filter);
    assert(none.filter(p) =~= none);
    assert(seq![g].drop_last() =~= none);
    assert(seq![g].last() == g);
    assert(none.push(g) =~= seq![g]);
}

proof fn lemma_trailing(w: Seq<char>, g: Seq<char>)
    requires
        forall|k: int| 0 <= k < g.len() ==> g[k] != '/',
    ensures
        parsed(w.push('/') + g).absolute == parsed(w.push('/')).absolute,
        parsed(w.push('/') + g).parts == if counts(g) {
            parsed(w.push('/')).parts.push(g)
        } else {
            parsed(w.push('/')).parts
        },
{
    let p = |x: Seq<char>| counts(x);
    let none = Seq::<char>::empty();
    let s = w.push('/') + g;
    let u = w.push('/');
    let head = text::split_on(w, '/');
    assert(u + none =~= u);
    text::lemma_split_joined(w, g, '/');
    text::lemma_split_joined(w, none, '/');
    text::lemma_split_pieces(w, '/', 0);
    text::lemma_split_pieces(g, '/', 0);
    text::lemma_split_pieces(none, '/', 0);
    assert(g.subrange(0, g.len() as int) =~= g);
    assert(none.subrange(0, 0) =~= none);
    assert(text::split_on(s, '/') == head + seq![g]);
    assert(text::split_on(u, '/') == head + seq![none]);
    Seq::filter_distributes_over_add(head, seq![g], p);
    Seq::filter_distributes_over_add(head, seq![none], p);
    lemma_one_piece(g);
    lemma_one_piece(none);
    assert((head + seq![none]).filter(p) =~= head.filter(p));
    assert((head + seq![none])[0] == head[0]);
    assert((head + seq![g])[0] == head[0]);
    if counts(g) {
        assert(seq![g].filter(p) =~= seq![g]);
        assert(parsed(s).parts =~= parsed(u).parts.push(g));
    } else {
        assert(seq![g].filter(p) =~= Seq::<Seq<char>>::empty());
        assert(parsed(s).parts =~= parsed(u).parts);
    }
}

proof fn lemma_end_trimmed(s: Seq<char>)
    ensures
        parsed(end_trimmed(s)) == parsed(s),
        end_trimmed(s).len() <= s.len(),
        end_trimmed(s) == s.take(end_trimmed(s).len() as int),
        ({
            let t = end_trimmed(s);
            t.len() > 1 ==> t.last() != '/' && !(t.last() == '.' && t[t.len() - 2] == '/')
        }),
    decreases s.len(),
{
    if s.len() > 1 && (s.last() == '/' || (s.last() == '.' && s[s.len() - 2] == '/')) {
        let u = s.drop_last();
        lemma_end_trimmed(u);
        let t = end_trimmed(u);
        assert(s.take(t.len() as int) =~= u.take(t.len() as int));
        if s.last() == '/' {
            lemma_closing_slash(u);
            assert(u.push('/') =~= s);
        } else {
            reveal_strlit(".");
            let w = u.drop_last();
            assert(w.push('/') =~= u);
            assert(u + seq!['.'] =~= s);
            assert(seq!['.'] =~= "."@);
            lemma_trailing(w, seq!['.']);
        }
    } else {
        assert(s.take(s.len() as int) =~= s);
    }
}

proof fn lemma_closing_slash(u: Seq<char>)
    requires
        u.len() > 0,
    ensures
        parsed(u.push('/')) == parsed(u),
{
    let p = |x: Seq<char>| counts(x);
    let none = Seq::<char>::empty();
    let head = text::split_on(u, '/');
    assert(u.push('/') + none =~= u.push('/'));
    text::lemma_split_joined(u, none, '/');
    text::lemma_split_pieces(u, '/', 0);
    text::lemma_split_pieces(none, '/', 0);
    assert(none.subrange(0, 0) =~= none);
    Seq::filter_distributes_over_add(head, seq![none], p);
    lemma_one_piece(none);
    assert((head + seq![none]).filter(p) =~= head.filter(p));
    assert((head + seq![none])[0] == head[0]);
}

proof fn lemma_to_last_slash(s: Seq<char>)
    ensures
        to_last_slash(s).len() <= s.len(),
        to_last_slash(s) == s.take(to_last_slash(s).len() as int),
        to_last_slash(s).len() > 0 ==> to_last_slash(s).last() == '/',
        forall|k: int| to_last_slash(s).len() <= k < s.len() ==> s[k] != '/',
    decreases s.len(),
{
    if s.len() == 0 || s.last() == '/' {
        assert(s.take(s.len() as int) =~= s);
    } else {
        let u = s.drop_last();
        lemma_to_last_slash(u);
        let n = to_last_slash(u).len() as int;
        assert(s.take(n) =~= u.take(n));
        assert forall|k: int| n <= k < s.len() implies s[k] != '/' by {
            if k < u.len() {
                assert(u[k] == s[k]);
            }
        }
    }
}

/// The directory that holds a path has all of its components but the last, and is the start of
/// its text. A path has one where it has components.
pub proof fn law_parents_lose_the_last_component(s: Seq<char>)
    ensures
        parent_of(s) is None <==> parsed(s).parts.len() == 0,
        parent_of(s) matches Some(d) ==> {
            &&& parsed(d) == (PathModel {
                absolute: parsed(s).absolute,
                parts: parsed(s).parts.drop_last(),
            })
            &&& d.len() <= s.len()
            &&& d == s.take(d.len() as int)
        },
{
    reveal_strlit("/");
    reveal_strlit(".");
    let t = end_trimmed(s);
    let none = Seq::<char>::empty();
    lemma_end_trimmed(s);
    lemma_to_last_slash(t);
    let u = to_last_slash(t);
    let n = u.len() as int;
    let g = t.skip(n);
    lemma_end_trimmed(u);
    let d = end_trimmed(u);
    assert(s.take(d.len() as int) =~= d);
    text::lemma_split_pieces(none, '/', 0);
    assert(none.subrange(0, 0) =~= none);
    let p = |x: Seq<char>| counts(x);
    lemma_one_piece(none);
    lemma_one_piece(g);
    assert(parsed(none).parts =~= Seq::<Seq<char>>::empty());
    lemma_trailing(none, none);
    if t.len() == 0 {
        assert(t =~= none);
    } else if t == "/"@ {
        assert(t =~= none.push('/'));
        text::lemma_split_joined(none, none, '/');
        assert(none.push('/') + none =~= t);
        assert(text::split_on(t, '/') =~= seq![none].push(none));
        assert(seq![none].push(none).drop_last() =~= seq![none]);
        assert(parsed(t).parts =~= Seq::<Seq<char>>::empty());
    } else {
        assert(t.last() != '/') by {
            if t.len() == 1 && t.last() == '/' {
                assert(t =~= "/"@);
            }
        }
        assert(g.len() > 0);
        assert forall|k: int| 0 <= k < g.len() implies g[k] != '/' by {
            assert(g[k] == t[n + k]);
        }
        if n == 0 {
            assert(t =~= g);
            assert(u =~= none);
            text::lemma_split_pieces(g, '/', 0);
            assert(g.subrange(0, g.len() as int) =~= g);
            if counts(g) {
                assert(seq![g].filter(p) =~= seq![g]);
                assert(parsed(t).parts =~= seq![g]);
            } else {
                assert(seq![g].filter(p) =~= Seq::<Seq<char>>::empty());
                assert(parsed(t).parts =~= seq!["."@]);
            }
            assert(parsed(t).parts.drop_last() =~= Seq::<Seq<char>>::empty());
            assert(d =~= none);
        } else {
            let w = u.drop_last();
            assert(w.push('/') =~= u);
            assert(w.push('/') + g =~= t);
            if !counts(g) {
                assert(g =~= "."@);
                assert(t.last() == '.' && t[t.len() - 2] == '/');
            }
            lemma_trailing(w, g);
            assert(parsed(t).parts.drop_last() =~= parsed(u).parts);
        }
    }
}

/// The last component of a path, where it names something.
pub open spec fn file_name_of(s: Seq<char>) -> Option<Seq<char>> {
    let p = parsed(s);
    if p.parts.len() == 0 || p.parts.last() == ".."@ || p.parts.last() == "."@ {
        None
    } else {
        Some(p.parts.last())
    }
}

/// The last component of a path, where it names something.
pub fn file_name(s: &str) -> (r: Option<String>)
    ensures
        match r {
            Some(t) => file_name_of(s@) == Some(t@),
            None => file_name_of(s@) is None,
        },
{
    let c = components(s);
    let n = c.parts.len();
    if n == 0 {
        return None;
    }
    let last = &c.parts[n - 1];
    proof {
        assert(c@.parts.last() == last@);
    }
    if str_eq(last.as_str(), "..") || str_eq(last.as_str(), ".") {
        None
    } else {
        Some(last.clone())
    }
}

/// The position of the last dot in a name, or -1.
pub open spec fn last_dot(name: Seq<char>) -> int
    decreases name.len(),
{
    if name.len() == 0 {
        -1
    } else if name.last() == '.' {
        name.len() - 1
    } else {
        last_dot(name.drop_last())
    }
}

/// The name before its extension, and the extension: what follows the last dot. A name
/// that has no dot, or none but at its start, has no extension.
pub open spec fn split_name(name: Seq<char>) -> (Seq<char>, Option<Seq<char>>) {
    let d = last_dot(name);
    if d <= 0 {
        (name, None)
    } else {
        (name.take(d), Some(name.skip(d + 1)))
    }
}

/// The last dot of a name, where it has one.
pub proof fn lemma_last_dot(name: Seq<char>)
    ensures
        -1 <= last_dot(name) < name.len(),
        last_dot(name) >= 0 ==> name[last_dot(name)] == '.',
        forall|k: int| last_dot(name) < k < name.len() ==> name[k] != '.',
    decreases name.len(),
{
    if name.len() > 0 && name.last() != '.' {
        lemma_last_dot(name.drop_last());
        let d = last_dot(name.drop_last());
        assert forall|k: int| last_dot(name) < k < name.len() implies name[k] != '.' by {
            if k < name.len() - 1 {
                assert(name.drop_last()[k] == name[k]);
            }
        }
    }
}

/// Splits a name into stem and extension.
pub fn stem_and_extension(name: &str) -> (r: (String, Option<String>))
    ensures
        r.0@ == split_name(name@).0,
        match r.1 {
            Some(e) => split_name(name@).1 == Some(e@),
            None => split_name(name@).1 is None,
        },
{
    let v = chars_of(name);
    let mut n: usize = v.len();
    proof {
        assert(v@.take(n as int) =~= v@);
    }
    while n > 0 && v[n - 1] != '.'
        invariant
            n <= v@.len(),
            v@ == name@,
            last_dot(v@) == last_dot(v@.take(n as int)),
        decreases n,
    {
        proof {
            assert(v@.take(n as int).drop_last() =~= v@.take(n - 1));
        }
        n -= 1;
    }
    proof {
        if n > 0 {
            assert(v@.take(n as int).last() == '.');
        }
    }
    if n <= 1 {
        return (name.to_owned(), None);
    }
    let stem = slice_text(&v, 0, n - 1);
    let ext = slice_text(&v, n, v.len());
    proof {
        assert(stem@ =~= v@.take(n - 1));
        assert(ext@ =~= v@.skip(n as int));
    }
    (stem, Some(ext))
}

/// The name of a file from its stem and extension.
pub open spec fn joined_name(stem: Seq<char>, ext: Option<Seq<char>>) -> Seq<char> {
    match ext {
        Some(e) => stem + "."@ + e,
        None => stem,
    }
}

/// A name put together again from its stem and extension is the name.
pub proof fn law_name_round_trip(name: Seq<char>)
    ensures
        joined_name(split_name(name).0, split_name(name).1) == name,
{
    reveal_strlit(".");
    lemma_last_dot(name);
    let d = last_dot(name);
    if d > 0 {
        assert(name.take(d) + "."@ + name.skip(d + 1) =~= name);
    }
}

/// The stem of the file that a path names.
pub open spec fn stem_of(s: Seq<char>) -> Option<Seq<char>> {
    match file_name_of(s) {
        Some(n) => Some(split_name(n).0),
        None => None,
    }
}

/// The extension of the file that a path names.
pub open spec fn extension_of(s: Seq<char>) -> Option<Seq<char>> {
    match file_name_of(s) {
        Some(n) => split_name(n).1,
        None => None,
    }
}

/// The stem of the file that a path names.
pub fn file_stem(s: &str) -> (r: Option<String>)
    ensures
        match r {
            Some(t) => stem_of(s@) == Some(t@),
            None => stem_of(s@) is None,
        },
{
    match file_name(s) {
        Some(n) => Some(stem_and_extension(n.as_str()).0),
        None => None,
    }
}

/// The extension of the file that a path names.
pub fn extension(s: &str) -> (r: Option<String>)
    ensures
        match r {
            Some(t) => extension_of(s@) == Some(t@),
            None => extension_of(s@) is None,
        },
{
    match file_name(s) {
        Some(n) => stem_and_extension(n.as_str()).1,
        None => None,
    }
}

/// A name in a directory. A name that is an absolute path stands for itself.
pub open spec fn joined_to(dir: Seq<char>, name: Seq<char>) -> Seq<char> {
    if name.len() > 0 && name[0] == '/' {
        name
    } else if dir.len() == 0 || dir.last() == '/' {
        dir + name
    } else {
        dir + "/"@ + name
    }
}

/// A name in a directory. A name that is an absolute path stands for itself.
pub fn join_path(dir: &str, name: &str) -> (r: String)
    ensures
        r@ == joined_to(dir@, name@),
{
    let d = chars_of(dir);
    let n = chars_of(name);
    if n.len() > 0 && n[0] == '/' {
        return name.to_owned();
    }
    let mut s = dir.to_owned();
    if !(d.len() == 0 || d[d.len() - 1] == '/') {
        s.push_str("/");
    }
    s.push_str(name);
    s
}

// ---------------------------------------------------------------------------
// Locations
// ---------------------------------------------------------------------------

/// Where a file lies: its directory, and its name without and with its extension.
#[derive(Debug)]
pub struct PathComponents {
    pub parentdir: String,
    pub stem: String,
    pub extension: Option<String>,
}

#[verifier::ext_equal]
pub struct Location {
    pub parentdir: Seq<char>,
    pub stem: Seq<char>,
    pub extension: Option<Seq<char>>,
}

pub open spec fn opt_text(o: Option<String>) -> Option<Seq<char>> {
    match o {
        Some(s) => Some(s@),
        None => None,
    }
}

impl View for PathComponents {
    type V = Location;

    open spec fn view(&self) -> Location {
        Location {
            parentdir: self.parentdir@,
            stem: self.stem@,
            extension: opt_text(self.extension),
        }
    }
}

pub open spec fn located(s: Seq<char>) -> Location {
    Location {
        parentdir: match parent_of(s) {
            Some(d) => d,
            None => seq![],
        },
        stem: match stem_of(s) {
            Some(t) => t,
            None => seq![],
        },
        extension: extension_of(s),
    }
}

impl Location {
    /// The path of the location.
    pub open spec fn path(self) -> Seq<char> {
        joined_to(self.parentdir, joined_name(self.stem, self.extension))
    }

    pub open spec fn with_filename(self, name: Seq<char>) -> Location {
        Location {
            parentdir: self.parentdir,
            stem: split_name(name).0,
            extension: split_name(name).1,
        }
    }
}

impl PathComponents {
    /// Takes a path apart.
    pub fn decompose(s: &str) -> (r: Self)
        ensures
            r@ == located(s@),
    {
        let parentdir = match parent(s) {
            Some(d) => d,
            None => String::new(),
        };
        let stem = match file_stem(s) {
            Some(t) => t,
            None => String::new(),
        };
        PathComponents { parentdir, stem, extension: extension(s) }
    }

    /// Sets stem and extension by the name of a file.
    pub fn set_filename(&mut self, name: &str)
        ensures
            final(self)@ == old(self)@.with_filename(name@),
    {
        let (stem, extension) = stem_and_extension(name);
        self.stem = stem;
        self.extension = extension;
    }

    /// The path of the location.
    pub fn join(&self) -> (r: String)
        ensures
            r@ == self@.path(),
    {
        let mut name = self.stem.clone();
        match &self.extension {
            Some(e) => {
                name.push_str(".");
                name.push_str(e.as_str());
            },
            None => {},
        }
        join_path(self.parentdir.as_str(), name.as_str())
    }
}

/// Whether a text names one component: not empty, not a single dot, without slashes.
pub open spec fn is_name(s: Seq<char>) -> bool {
    counts(s) && forall|k: int| 0 <= k < s.len() ==> s[k] != '/'
}

/// A name in a directory is the last component of the path.
pub proof fn lemma_joined_name_is_last(dir: Seq<char>, name: Seq<char>)
    requires
        is_name(name),
    ensures
        parsed(joined_to(dir, name)).parts.len() > 0,
        parsed(joined_to(dir, name)).parts.last() == name,
{
    reveal_strlit("/");
    let s = joined_to(dir, name);
    text::lemma_split_pieces(s, '/', 0);
    let segs = text::split_on(s, '/');
    if dir.len() == 0 {
        assert(s =~= name);
        assert(segs.last() =~= name);
    } else {
        let k = if dir.last() == '/' {
            dir.len() - 1
        } else {
            dir.len() as int
        };
        assert(s[k] == '/');
        assert(s.subrange(k + 1, s.len() as int) =~= name);
        assert forall|j: int| k < j < s.len() implies s[j] != '/' by {
            assert(s[j] == name[j - k - 1]);
        }
        assert(segs.last() == name);
    }
    reveal(Seq::filter);
    let p = |g: Seq<char>| counts(g);
    assert(segs.filter(p) == segs.drop_last().filter(p).push(name));
}

/// The last component of a path is free of slashes and is not empty.
pub proof fn lemma_file_name_is_name(s: Seq<char>)
    ensures
        file_name_of(s) is Some ==> is_name(file_name_of(s)->0),
{
    if file_name_of(s) is Some {
        let segs = text::split_on(s, '/');
        text::lemma_split_pieces(s, '/', 0);
        let p = |g: Seq<char>| counts(g);
        let kept = segs.filter(p);
        let parts = parsed(s).parts;
        reveal(Seq::filter);
        assert(kept.len() > 0) by {
            if kept.len() == 0 {
                assert(parts.len() > 0);
                assert(parts.last() == "."@);
            }
        }
        assert(parts.last() == kept.last());
        lemma_kept(segs, kept.len() - 1);
        let k = choose|k: int| 0 <= k < segs.len() && segs[k] == kept.last();
        assert forall|j: int| 0 <= j < kept.last().len() implies kept.last()[j] != '/' by {
            assert(segs[k][j] != '/');
        }
    }
}

proof fn lemma_kept(segs: Seq<Seq<char>>, i: int)
    requires
        0 <= i < segs.filter(|g: Seq<char>| counts(g)).len(),
    ensures
        counts(segs.filter(|g: Seq<char>| counts(g))[i]),
        exists|k: int|
            0 <= k < segs.len() && segs[k] == segs.filter(|g: Seq<char>| counts(g))[i],
    decreases segs.len(),
{
    reveal(Seq::filter);
    let p = |g: Seq<char>| counts(g);
    if segs.len() > 0 {
        let t = segs.drop_last();
        if i < t.filter(p).len() {
            lemma_kept(t, i);
            let k = choose|k: int| 0 <= k < t.len() && t[k] == t.filter(p)[i];
            assert(segs[k] == segs.filter(p)[i]);
        } else {
            assert(segs[segs.len() - 1] == segs.filter(p)[i]);
        }
    }
}

#[verifier::spinoff_prover]
#[verifier::rlimit(50)]
proof fn lemma_joined_components(dir: Seq<char>, name: Seq<char>)
    requires
        is_name(name),
    ensures
        parsed(joined_to(dir, name)).absolute == parsed(dir).absolute,
        parsed(joined_to(dir, name)).parts == parsed(dir).parts.push(name),
{
    reveal_strlit("/");
    let s = joined_to(dir, name);
    let none = Seq::<char>::empty();
    if dir.len() == 0 {
        assert(s =~= name);
        assert(dir =~= none);
        text::lemma_split_pieces(name, '/', 0);
        text::lemma_split_pieces(none, '/', 0);
        assert(name.subrange(0, name.len() as int) =~= name);
        assert(none.subrange(0, 0) =~= none);
        lemma_one_piece(name);
        lemma_one_piece(none);
        reveal_strlit(".");
        assert(parsed(none).parts =~= Seq::<Seq<char>>::empty());
        assert(parsed(s).parts =~= parsed(dir).parts.push(name));
    } else if dir.last() == '/' {
        let w = dir.drop_last();
        assert(w.push('/') =~= dir);
        assert(w.push('/') + name =~= s);
        lemma_trailing(w, name);
    } else {
        assert(dir.push('/') + name =~= s);
        lemma_trailing(dir, name);
        lemma_closing_slash(dir);
    }
}

/// A name in a directory lies in it: the path has the components of the directory and then the
/// name.
#[verifier::spinoff_prover]
#[verifier::rlimit(50)]
pub proof fn law_joined_name_lies_in_the_directory(dir: Seq<char>, name: Seq<char>)
    requires
        is_name(name),
    ensures
        parsed(joined_to(dir, name)) == (PathModel {
            absolute: parsed(dir).absolute,
            parts: parsed(dir).parts.push(name),
        }),
        parent_of(joined_to(dir, name)) matches Some(d) && same(d, dir),
        name != ".."@ ==> file_name_of(joined_to(dir, name)) == Some(name),
{
    lemma_joined_components(dir, name);
    law_parents_lose_the_last_component(joined_to(dir, name));
    assert(parsed(dir).parts.push(name).drop_last() =~= parsed(dir).parts);
}

} // verus!
