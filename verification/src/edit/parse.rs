//! Edit queries: which tags to set or to take away.
//!
//! A query is a list of `type:label` pairs, separated by white space or by ` | `. Type and
//! label are written bare or in quotes. `{n}` stands for what the n-th metacharacter of the
//! search captured. A backslash takes the next character literally; before a glob
//! metacharacter it is kept until the value is read, so that a literal `*` can be told from
//! a pattern.
use crate::edit::error::{EditError, EditErrorModel};
use crate::edit::QueryType;
use crate::tag;
use crate::tag::{EditStrategy, TagRegistry};
use crate::text;
use crate::text::{char_is_white, chars_of, contains_text, slice_text, str_eq};
use vstd::prelude::*;

verus! {

/// A piece of a type or a label: text, or a reference to a capture.
#[derive(Debug, PartialEq, Eq)]
pub enum LeafPart {
    Text(String),
    Braced(String),
}

pub enum PartModel {
    Text(Seq<char>),
    Braced(Seq<char>),
}

impl View for LeafPart {
    type V = PartModel;

    open spec fn view(&self) -> PartModel {
        match *self {
            LeafPart::Text(s) => PartModel::Text(s@),
            LeafPart::Braced(s) => PartModel::Braced(s@),
        }
    }
}

impl Clone for LeafPart {
    fn clone(&self) -> (r: Self)
        ensures
            r@ == self@,
    {
        match self {
            LeafPart::Text(s) => LeafPart::Text(s.clone()),
            LeafPart::Braced(s) => LeafPart::Braced(s.clone()),
        }
    }
}

pub open spec fn part_models(v: Seq<LeafPart>) -> Seq<PartModel> {
    v.map_values(|p: LeafPart| p@)
}

/// A type or a label of an edit query.
#[derive(Debug, PartialEq, Eq)]
pub struct EditQueryLeaf {
    pub parts: Vec<LeafPart>,
    pub quoted: bool,
}

#[verifier::ext_equal]
pub struct LeafModel {
    pub parts: Seq<PartModel>,
    pub quoted: bool,
}

impl View for EditQueryLeaf {
    type V = LeafModel;

    open spec fn view(&self) -> LeafModel {
        LeafModel { parts: part_models(self.parts@), quoted: self.quoted }
    }
}

/// A part as it is written: a reference with its braces.
pub open spec fn part_text(p: PartModel) -> Seq<char> {
    match p {
        PartModel::Text(s) => s,
        PartModel::Braced(s) => "{"@ + s + "}"@,
    }
}

pub open spec fn parts_text(parts: Seq<PartModel>) -> Seq<char>
    decreases parts.len(),
{
    if parts.len() == 0 {
        seq![]
    } else {
        parts_text(parts.drop_last()) + part_text(parts.last())
    }
}

pub open spec fn is_glob_meta(c: char) -> bool {
    c == '*' || c == '?' || c == '[' || c == ']'
}

/// The text without the backslashes that stand before glob metacharacters.
pub open spec fn unescaped(s: Seq<char>) -> Seq<char>
    decreases s.len(),
{
    if s.len() == 0 {
        seq![]
    } else if s[0] == '\\' && s.len() > 1 && is_glob_meta(s[1]) {
        seq![s[1]] + unescaped(s.skip(2))
    } else {
        seq![s[0]] + unescaped(s.skip(1))
    }
}

impl LeafModel {
    pub open spec fn rendered(self) -> Seq<char> {
        parts_text(self.parts)
    }

    /// The text that the leaf stands for.
    pub open spec fn valued(self) -> Seq<char> {
        unescaped(self.rendered())
    }

    /// Whether the leaf holds a reference.
    pub open spec fn braced(self) -> bool {
        exists|i: int| 0 <= i < self.parts.len() && (#[trigger] self.parts[i]) is Braced
    }
}

impl EditQueryLeaf {
    /// The leaf as text. References keep their braces, and backslashes stay.
    pub fn render(&self) -> (r: String)
        ensures
            r@ == self@.rendered(),
    {
        let mut s = String::new();
        let mut i: usize = 0;
        while i < self.parts.len()
            invariant
                i <= self.parts@.len(),
                s@ == parts_text(part_models(self.parts@).take(i as int)),
            decreases self.parts@.len() - i,
        {
            proof {
                let m = part_models(self.parts@);
                assert(m.take(i + 1).drop_last() =~= m.take(i as int));
                assert(m.take(i + 1).last() == self.parts@[i as int]@);
            }
            let ghost before = s@;
            match &self.parts[i] {
                LeafPart::Text(t) => {
                    s.push_str(t.as_str());
                },
                LeafPart::Braced(t) => {
                    s.push_str("{");
                    s.push_str(t.as_str());
                    s.push_str("}");
                    proof {
                        assert(s@ =~= before + ("{"@ + t@ + "}"@));
                    }
                },
            }
            i += 1;
        }
        proof {
            let m = part_models(self.parts@);
            assert(m.take(m.len() as int) =~= m);
        }
        s
    }

    /// The text that the leaf stands for.
    pub fn value(&self) -> (r: String)
        ensures
            r@ == self@.valued(),
    {
        let s = self.render();
        drop_glob_escapes(s.as_str())
    }

    /// Whether the leaf holds a reference.
    pub fn has_braced(&self) -> (r: bool)
        ensures
            r == self@.braced(),
    {
        let mut i: usize = 0;
        while i < self.parts.len()
            invariant
                i <= self.parts@.len(),
                forall|k: int| 0 <= k < i ==> !((#[trigger] self@.parts[k]) is Braced),
            decreases self.parts@.len() - i,
        {
            match &self.parts[i] {
                LeafPart::Braced(_) => {
                    proof {
                        assert(self@.parts[i as int] is Braced);
                    }
                    return true;
                },
                LeafPart::Text(_) => {},
            }
            i += 1;
        }
        false
    }

    /// Whether two leaves are the same.
    pub fn same(&self, other: &Self) -> (r: bool)
        ensures
            r == (self@ == other@),
    {
        if self.quoted != other.quoted || self.parts.len() != other.parts.len() {
            proof {
                if self@ == other@ {
                    assert(self@.parts.len() == other@.parts.len());
                }
            }
            return false;
        }
        let mut i: usize = 0;
        while i < self.parts.len()
            invariant
                i <= self.parts@.len() == other.parts@.len(),
                forall|k: int|
                    0 <= k < i ==> (#[trigger] self@.parts[k]) == other@.parts[k],
            decreases self.parts@.len() - i,
        {
            let same = match (&self.parts[i], &other.parts[i]) {
                (LeafPart::Text(a), LeafPart::Text(b)) => str_eq(a.as_str(), b.as_str()),
                (LeafPart::Braced(a), LeafPart::Braced(b)) => str_eq(a.as_str(), b.as_str()),
                _ => false,
            };
            if !same {
                proof {
                    assert(self@.parts[i as int] != other@.parts[i as int]);
                }
                return false;
            }
            i += 1;
        }
        proof {
            assert(self@.parts =~= other@.parts);
        }
        true
    }
}

impl Clone for EditQueryLeaf {
    fn clone(&self) -> (r: Self)
        ensures
            r@ == self@,
    {
        let mut parts: Vec<LeafPart> = Vec::new();
        let mut i: usize = 0;
        while i < self.parts.len()
            invariant
                i <= self.parts@.len(),
                parts@.len() == i,
                forall|k: int|
                    0 <= k < i ==> (#[trigger] parts@[k])@ == self.parts@[k]@,
            decreases self.parts@.len() - i,
        {
            parts.push(self.parts[i].clone());
            i += 1;
        }
        proof {
            assert(part_models(parts@) =~= part_models(self.parts@));
        }
        EditQueryLeaf { parts, quoted: self.quoted }
    }
}

fn drop_glob_escapes(s: &str) -> (r: String)
    ensures
        r@ == unescaped(s@),
{
    let v = chars_of(s);
    let mut r = String::new();
    let mut i: usize = 0;
    proof {
        assert(v@.skip(0) =~= v@);
        assert(r@ + unescaped(v@) =~= unescaped(v@));
    }
    while i < v.len()
        invariant
            i <= v@.len(),
            v@ == s@,
            r@ + unescaped(v@.skip(i as int)) == unescaped(s@),
        decreases v@.len() - i,
    {
        let c = v[i];
        let ghost before = r@;
        let ghost rest = v@.skip(i as int);
        if c == '\\' && i + 1 < v.len() && (v[i + 1] == '*' || v[i + 1] == '?' || v[i + 1] == '['
            || v[i + 1] == ']') {
            r.push(v[i + 1]);
            proof {
                assert(rest.skip(2) =~= v@.skip(i + 2));
                assert(r@ + unescaped(rest.skip(2)) =~= before + (seq![rest[1]] + unescaped(
                    rest.skip(2),
                )));
            }
            i += 2;
        } else {
            r.push(c);
            proof {
                assert(rest.skip(1) =~= v@.skip(i + 1));
                assert(r@ + unescaped(rest.skip(1)) =~= before + (seq![rest[0]] + unescaped(
                    rest.skip(1),
                )));
            }
            i += 1;
        }
    }
    proof {
        assert(unescaped(v@.skip(i as int)) =~= Seq::<char>::empty());
        assert(r@ + Seq::<char>::empty() =~= r@);
    }
    r
}

/// A `type:label` pair; without a label it names the type alone.
#[derive(Debug, PartialEq, Eq)]
pub struct EditQueryNode {
    pub tag_type: EditQueryLeaf,
    pub label: Option<EditQueryLeaf>,
}

#[verifier::ext_equal]
pub struct NodeModel {
    pub tag_type: LeafModel,
    pub label: Option<LeafModel>,
}

impl View for EditQueryNode {
    type V = NodeModel;

    open spec fn view(&self) -> NodeModel {
        NodeModel {
            tag_type: self.tag_type@,
            label: match self.label {
                Some(l) => Some(l@),
                None => None,
            },
        }
    }
}

impl Clone for EditQueryNode {
    fn clone(&self) -> (r: Self)
        ensures
            r@ == self@,
    {
        EditQueryNode {
            tag_type: self.tag_type.clone(),
            label: match &self.label {
                Some(l) => Some(l.clone()),
                None => None,
            },
        }
    }
}

impl EditQueryNode {
    /// Whether two pairs are the same.
    pub fn same(&self, other: &Self) -> (r: bool)
        ensures
            r == (self@ == other@),
    {
        self.tag_type.same(&other.tag_type) && match (&self.label, &other.label) {
            (Some(a), Some(b)) => a.same(b),
            (None, None) => true,
            _ => false,
        }
    }

    /// The pair as text.
    pub fn show(&self) -> (r: String)
        ensures
            r@ == self@.tag_type.rendered() + ":"@ + (match self@.label {
                Some(l) => l.rendered(),
                None => seq![],
            }),
    {
        let mut s = self.tag_type.render();
        s.push_str(":");
        let ghost head = s@;
        match &self.label {
            Some(l) => {
                let t = l.render();
                s.push_str(t.as_str());
            },
            None => {
                proof {
                    assert(head + Seq::<char>::empty() =~= head);
                }
            },
        }
        s
    }
}

/// An edit query.
#[derive(Debug, PartialEq, Eq)]
pub struct EditQuery {
    pub nodes: Vec<EditQueryNode>,
}

pub open spec fn node_models(v: Seq<EditQueryNode>) -> Seq<NodeModel> {
    v.map_values(|n: EditQueryNode| n@)
}

impl View for EditQuery {
    type V = Seq<NodeModel>;

    open spec fn view(&self) -> Seq<NodeModel> {
        node_models(self.nodes@)
    }
}

impl Clone for EditQuery {
    fn clone(&self) -> (r: Self)
        ensures
            r@ == self@,
    {
        let mut nodes: Vec<EditQueryNode> = Vec::new();
        let mut i: usize = 0;
        while i < self.nodes.len()
            invariant
                i <= self.nodes@.len(),
                nodes@.len() == i,
                forall|k: int|
                    0 <= k < i ==> (#[trigger] nodes@[k])@ == self.nodes@[k]@,
            decreases self.nodes@.len() - i,
        {
            nodes.push(self.nodes[i].clone());
            i += 1;
        }
        proof {
            assert(node_models(nodes@) =~= node_models(self.nodes@));
        }
        EditQuery { nodes }
    }
}

// ---------------------------------------------------------------------------
// The grammar
// ---------------------------------------------------------------------------

/// Where a leaf is written: bare as a type, bare as a label, or between quotes.
#[derive(Clone, Copy, Debug, PartialEq, Eq, Structural)]
pub enum Place {
    Type,
    Label,
    Quoted(char),
}

/// Whether a bare leaf, or a quoted one, ends before the character.
pub open spec fn ends_leaf(place: Place, c: char) -> bool {
    match place {
        Place::Type => c == ':' || text::is_white(c),
        Place::Label => text::is_white(c),
        Place::Quoted(q) => c == q,
    }
}

/// Whether a character cannot stand in a leaf as it is.
pub open spec fn refused_in_leaf(place: Place, c: char) -> bool {
    match place {
        Place::Type => c == '}' || c == '|' || c == '&' || c == '"' || c == '\'',
        Place::Label => c == '}',
        Place::Quoted(_) => false,
    }
}

/// One element of a leaf.
pub enum Piece {
    Char(char),
    Braced(String),
}

pub enum PieceModel {
    Char(char),
    Braced(Seq<char>),
}

impl View for Piece {
    type V = PieceModel;

    open spec fn view(&self) -> PieceModel {
        match *self {
            Piece::Char(c) => PieceModel::Char(c),
            Piece::Braced(s) => PieceModel::Braced(s@),
        }
    }
}

/// The closing brace of a reference whose content starts at `i`.
pub open spec fn brace_end(place: Place, s: Seq<char>, i: int) -> Option<int>
    decreases s.len() - i,
{
    if i < 0 || i >= s.len() || s[i] == '{' || (place is Quoted && ends_leaf(place, s[i])) {
        None
    } else if s[i] == '}' {
        Some(i)
    } else {
        brace_end(place, s, i + 1)
    }
}

/// The elements at position `i` of a leaf, and the position after them; nothing where the
/// text is no leaf.
pub open spec fn piece_step(place: Place, s: Seq<char>, i: int) -> Option<(Seq<PieceModel>, int)> {
    if s[i] == '{' {
        match brace_end(place, s, i + 1) {
            Some(j) => Some((seq![PieceModel::Braced(s.subrange(i + 1, j))], j + 1)),
            None => if place is Quoted {
                Some((seq![PieceModel::Char('{')], i + 1))
            } else {
                None
            },
        }
    } else if s[i] == '\\' {
        if i + 1 >= s.len() {
            None
        } else if is_glob_meta(s[i + 1]) {
            Some((seq![PieceModel::Char('\\'), PieceModel::Char(s[i + 1])], i + 2))
        } else {
            Some((seq![PieceModel::Char(s[i + 1])], i + 2))
        }
    } else if refused_in_leaf(place, s[i]) {
        None
    } else {
        Some((seq![PieceModel::Char(s[i])], i + 1))
    }
}

proof fn lemma_brace_end(place: Place, s: Seq<char>, i: int)
    requires
        0 <= i,
    ensures
        match brace_end(place, s, i) {
            Some(j) => i <= j < s.len() && s[j] == '}',
            None => true,
        },
    decreases s.len() - i,
{
    if i < s.len() && s[i] != '{' && s[i] != '}' {
        lemma_brace_end(place, s, i + 1);
    }
}

/// The elements of the leaf from position `i` on, and the position where it ends.
pub open spec fn pieces_from(place: Place, s: Seq<char>, i: int) -> Option<(Seq<PieceModel>, int)>
    decreases s.len() - i,
    via pieces_from_decreases
{
    if i < 0 || i >= s.len() {
        if place is Quoted {
            None
        } else {
            Some((seq![], i))
        }
    } else if ends_leaf(place, s[i]) {
        Some((seq![], i))
    } else {
        match piece_step(place, s, i) {
            None => None,
            Some(step) => match pieces_from(place, s, step.1) {
                None => None,
                Some(rest) => Some((step.0 + rest.0, rest.1)),
            },
        }
    }
}

#[via_fn]
proof fn pieces_from_decreases(place: Place, s: Seq<char>, i: int) {
    if 0 <= i < s.len() {
        lemma_brace_end(place, s, i + 1);
    }
}

proof fn lemma_pieces_end(place: Place, s: Seq<char>, i: int)
    requires
        0 <= i <= s.len(),
    ensures
        match pieces_from(place, s, i) {
            Some(p) => i <= p.1 <= s.len() && (place is Quoted ==> p.1 < s.len()),
            None => true,
        },
    decreases s.len() - i,
{
    if i < s.len() && !ends_leaf(place, s[i]) {
        lemma_brace_end(place, s, i + 1);
        match piece_step(place, s, i) {
            Some(step) => {
                lemma_pieces_end(place, s, step.1);
            },
            None => {},
        }
    }
}

/// The parts with one more element: characters gather in one text part.
pub open spec fn add_piece(parts: Seq<PartModel>, p: PieceModel) -> Seq<PartModel> {
    match p {
        PieceModel::Braced(s) => parts.push(PartModel::Braced(s)),
        PieceModel::Char(c) => if parts.len() > 0 && parts.last() is Text {
            parts.drop_last().push(PartModel::Text(parts.last()->Text_0.push(c)))
        } else {
            parts.push(PartModel::Text(seq![c]))
        },
    }
}

/// The parts that a list of elements makes.
pub open spec fn gathered(pieces: Seq<PieceModel>) -> Seq<PartModel>
    decreases pieces.len(),
{
    if pieces.len() == 0 {
        seq![]
    } else {
        add_piece(gathered(pieces.drop_last()), pieces.last())
    }
}

/// The leaf that starts at `i`, and the position after it. A bare type has at least one
/// character.
pub open spec fn leaf_at(s: Seq<char>, i: int, as_type: bool) -> Option<(LeafModel, int)> {
    if i < s.len() && (s[i] == '"' || s[i] == '\'') {
        match pieces_from(Place::Quoted(s[i]), s, i + 1) {
            Some(p) => Some((LeafModel { parts: gathered(p.0), quoted: true }, p.1 + 1)),
            None => None,
        }
    } else {
        let place = if as_type {
            Place::Type
        } else {
            Place::Label
        };
        match pieces_from(place, s, i) {
            Some(p) => if as_type && p.1 == i {
                None
            } else {
                Some((LeafModel { parts: gathered(p.0), quoted: false }, p.1))
            },
            None => None,
        }
    }
}

pub open spec fn at_gap(s: Seq<char>, i: int) -> bool {
    i >= s.len() || text::is_white(s[i])
}

/// The pair that starts at `i`, and the position after it.
pub open spec fn node_at(s: Seq<char>, i: int) -> Option<(NodeModel, int)> {
    match leaf_at(s, i, true) {
        None => None,
        Some(t) => if t.1 >= s.len() || s[t.1] != ':' {
            None
        } else if at_gap(s, t.1 + 1) {
            Some((NodeModel { tag_type: t.0, label: None }, t.1 + 1))
        } else {
            match leaf_at(s, t.1 + 1, false) {
                None => None,
                Some(l) => if at_gap(s, l.1) {
                    Some((NodeModel { tag_type: t.0, label: Some(l.0) }, l.1))
                } else {
                    None
                },
            }
        },
    }
}

pub open spec fn skip_white(s: Seq<char>, i: int) -> int
    decreases s.len() - i,
{
    if 0 <= i < s.len() && text::is_white(s[i]) {
        skip_white(s, i + 1)
    } else {
        i
    }
}

/// Where the pair after the position `i` starts: after white space, or after a bar that
/// stands between white space. Nothing where a bar is not followed by white space.
pub open spec fn next_start(s: Seq<char>, i: int) -> Option<int> {
    let k = skip_white(s, i);
    if k < s.len() && s[k] == '|' {
        if k + 1 < s.len() && text::is_white(s[k + 1]) {
            Some(skip_white(s, k + 1))
        } else {
            None
        }
    } else {
        Some(k)
    }
}

proof fn lemma_skip_white(s: Seq<char>, i: int)
    requires
        0 <= i <= s.len(),
    ensures
        i <= skip_white(s, i) <= s.len(),
    decreases s.len() - i,
{
    if i < s.len() && text::is_white(s[i]) {
        lemma_skip_white(s, i + 1);
    }
}

proof fn lemma_leaf_at(s: Seq<char>, i: int, as_type: bool)
    requires
        0 <= i <= s.len(),
    ensures
        match leaf_at(s, i, as_type) {
            Some(l) => i <= l.1 <= s.len() && (as_type ==> i < l.1),
            None => true,
        },
{
    if i < s.len() {
        lemma_pieces_end(Place::Quoted(s[i]), s, i + 1);
    }
    lemma_pieces_end(Place::Type, s, i);
    lemma_pieces_end(Place::Label, s, i);
}

proof fn lemma_node_at(s: Seq<char>, i: int)
    requires
        0 <= i <= s.len(),
    ensures
        match node_at(s, i) {
            Some(n) => i < n.1 <= s.len(),
            None => true,
        },
{
    lemma_leaf_at(s, i, true);
    match leaf_at(s, i, true) {
        Some(t) => {
            if t.1 < s.len() {
                lemma_leaf_at(s, t.1 + 1, false);
            }
        },
        None => {},
    }
}

/// The pairs from position `i` on; nothing where the text is no query.
pub open spec fn nodes_from(s: Seq<char>, i: int) -> Option<Seq<NodeModel>>
    decreases s.len() - i,
    via nodes_from_decreases
{
    if i < 0 || i > s.len() {
        None
    } else {
        match node_at(s, i) {
            None => None,
            Some(n) => if skip_white(s, n.1) >= s.len() {
                Some(seq![n.0])
            } else {
                match next_start(s, n.1) {
                    None => None,
                    Some(k) => match nodes_from(s, k) {
                        None => None,
                        Some(rest) => Some(seq![n.0] + rest),
                    },
                }
            },
        }
    }
}

#[via_fn]
proof fn nodes_from_decreases(s: Seq<char>, i: int) {
    if 0 <= i <= s.len() {
        lemma_node_at(s, i);
        match node_at(s, i) {
            Some(n) => {
                lemma_skip_white(s, n.1);
                let k = skip_white(s, n.1);
                if k < s.len() {
                    lemma_skip_white(s, k + 1);
                }
            },
            None => {},
        }
    }
}

/// Where the text cannot be read as pairs from position `i` on: at the start of a pair, or at
/// what stands behind one.
pub open spec fn refused_from(s: Seq<char>, i: int) -> int
    decreases s.len() - i,
    via refused_from_decreases
{
    if i < 0 || i > s.len() {
        i
    } else {
        match node_at(s, i) {
            None => i,
            Some(n) => match next_start(s, n.1) {
                None => skip_white(s, n.1),
                Some(k) => refused_from(s, k),
            },
        }
    }
}

#[via_fn]
proof fn refused_from_decreases(s: Seq<char>, i: int) {
    if 0 <= i <= s.len() {
        lemma_node_at(s, i);
        match node_at(s, i) {
            Some(n) => {
                lemma_skip_white(s, n.1);
                let k = skip_white(s, n.1);
                if k < s.len() {
                    lemma_skip_white(s, k + 1);
                }
            },
            None => {},
        }
    }
}

/// Where a text that is no query cannot be read.
pub open spec fn refused_at(s: Seq<char>) -> int {
    refused_from(s, skip_white(s, 0))
}

/// The pairs of a query; nothing where the text is no query.
pub open spec fn query_nodes(s: Seq<char>) -> Option<Seq<NodeModel>> {
    nodes_from(s, skip_white(s, 0))
}

fn exec_skip_white(v: &[char], from: usize) -> (r: usize)
    requires
        from <= v@.len(),
    ensures
        r == skip_white(v@, from as int),
        from <= r <= v@.len(),
{
    let mut i: usize = from;
    while i < v.len() && char_is_white(v[i])
        invariant
            from <= i <= v@.len(),
            skip_white(v@, from as int) == skip_white(v@, i as int),
        decreases v@.len() - i,
    {
        i += 1;
    }
    i
}

fn exec_brace_end(place: Place, v: &[char], from: usize) -> (r: Option<usize>)
    requires
        from <= v@.len(),
    ensures
        match r {
            Some(j) => brace_end(place, v@, from as int) == Some(j as int) && from <= j < v@.len(),
            None => brace_end(place, v@, from as int) is None,
        },
{
    let mut i: usize = from;
    while i < v.len()
        invariant
            from <= i <= v@.len(),
            brace_end(place, v@, from as int) == brace_end(place, v@, i as int),
        decreases v@.len() - i,
    {
        let c = v[i];
        if c == '{' {
            return None;
        }
        match place {
            Place::Quoted(q) => {
                if c == q {
                    return None;
                }
            },
            _ => {},
        }
        if c == '}' {
            return Some(i);
        }
        i += 1;
    }
    None
}

fn push_char(parts: &mut Vec<LeafPart>, c: char)
    ensures
        part_models(final(parts)@) == add_piece(part_models(old(parts)@), PieceModel::Char(c)),
{
    let ghost before = parts@;
    let ghost m = part_models(before);
    match parts.pop() {
        Some(last) => {
            match last {
                LeafPart::Text(t) => {
                    let mut t = t;
                    t.push(c);
                    parts.push(LeafPart::Text(t));
                    proof {
                        assert(m.last() == before.last()@);
                        assert(part_models(parts@) =~= m.drop_last().push(PartModel::Text(t@)));
                    }
                },
                LeafPart::Braced(b) => {
                    let mut t = String::new();
                    t.push(c);
                    parts.push(LeafPart::Braced(b));
                    parts.push(LeafPart::Text(t));
                    proof {
                        assert(t@ =~= seq![c]);
                        assert(m.last() == before.last()@);
                        assert(part_models(parts@) =~= m.push(PartModel::Text(seq![c])));
                    }
                },
            }
        },
        None => {
            let mut t = String::new();
            t.push(c);
            parts.push(LeafPart::Text(t));
            proof {
                assert(t@ =~= seq![c]);
                assert(part_models(parts@) =~= m.push(PartModel::Text(seq![c])));
            }
        },
    }
}

proof fn lemma_gathered_one(a: Seq<PieceModel>, p: PieceModel)
    ensures
        gathered(a + seq![p]) == add_piece(gathered(a), p),
{
    assert((a + seq![p]).drop_last() =~= a);
}

/// Reads the elements of a leaf from `from` on, gathered into parts.
fn read_parts(place: Place, v: &[char], from: usize) -> (r: Option<(Vec<LeafPart>, usize)>)
    requires
        from <= v@.len(),
    ensures
        match r {
            Some(p) => {
                &&& pieces_from(place, v@, from as int) is Some
                &&& part_models(p.0@) == gathered((pieces_from(place, v@, from as int)->0).0)
                &&& p.1 == (pieces_from(place, v@, from as int)->0).1
                &&& from <= p.1 <= v@.len()
                &&& place is Quoted ==> p.1 < v@.len()
            },
            None => pieces_from(place, v@, from as int) is None,
        },
{
    let mut parts: Vec<LeafPart> = Vec::new();
    let mut i: usize = from;
    let ghost whole = pieces_from(place, v@, from as int);
    let ghost mut done: Seq<PieceModel> = seq![];
    proof {
        assert(part_models(parts@) =~= gathered(done));
        if whole is Some {
            assert(done + (whole->0).0 =~= (whole->0).0);
        }
        lemma_pieces_end(place, v@, from as int);
    }
    while i < v.len()
        invariant
            from <= i <= v@.len(),
            part_models(parts@) == gathered(done),
            whole == pieces_from(place, v@, from as int),
            whole == (match pieces_from(place, v@, i as int) {
                Some(rest) => Some((done + rest.0, rest.1)),
                None => None,
            }),
        decreases v@.len() - i,
    {
        let c = v[i];
        let ends = match place {
            Place::Type => c == ':' || char_is_white(c),
            Place::Label => char_is_white(c),
            Place::Quoted(q) => c == q,
        };
        if ends {
            proof {
                assert(done + Seq::<PieceModel>::empty() =~= done);
            }
            return Some((parts, i));
        }
        let ghost step = piece_step(place, v@, i as int);
        let ghost old_done = done;
        if c == '{' {
            match exec_brace_end(place, v, i + 1) {
                Some(j) => {
                    let inner = slice_text(v, i + 1, j);
                    let ghost before = parts@;
                    parts.push(LeafPart::Braced(inner));
                    proof {
                        let p = PieceModel::Braced(inner@);
                        done = done + seq![p];
                        lemma_gathered_one(old_done, p);
                        assert(part_models(parts@) =~= part_models(before).push(
                            PartModel::Braced(inner@),
                        ));
                    }
                    i = j + 1;
                },
                None => {
                    match place {
                        Place::Quoted(_) => {
                            push_char(&mut parts, '{');
                            proof {
                                done = done + seq![PieceModel::Char('{')];
                                lemma_gathered_one(old_done, PieceModel::Char('{'));
                            }
                            i = i + 1;
                        },
                        _ => {
                            return None;
                        },
                    }
                },
            }
        } else if c == '\\' {
            if i + 1 >= v.len() {
                return None;
            }
            let d = v[i + 1];
            if d == '*' || d == '?' || d == '[' || d == ']' {
                push_char(&mut parts, '\\');
                push_char(&mut parts, d);
                proof {
                    let one = old_done + seq![PieceModel::Char('\\')];
                    done = old_done + seq![PieceModel::Char('\\'), PieceModel::Char(d)];
                    lemma_gathered_one(old_done, PieceModel::Char('\\'));
                    lemma_gathered_one(one, PieceModel::Char(d));
                    assert(one + seq![PieceModel::Char(d)] =~= done);
                }
            } else {
                push_char(&mut parts, d);
                proof {
                    done = done + seq![PieceModel::Char(d)];
                    lemma_gathered_one(old_done, PieceModel::Char(d));
                }
            }
            i = i + 2;
        } else {
            let refused = match place {
                Place::Type => c == '}' || c == '|' || c == '&' || c == '"' || c == '\'',
                Place::Label => c == '}',
                Place::Quoted(_) => false,
            };
            if refused {
                return None;
            }
            push_char(&mut parts, c);
            proof {
                done = done + seq![PieceModel::Char(c)];
                lemma_gathered_one(old_done, PieceModel::Char(c));
            }
            i = i + 1;
        }
        proof {
            assert(step is Some && (step->0).1 == i);
            assert(done =~= old_done + (step->0).0);
            match pieces_from(place, v@, i as int) {
                Some(rest) => {
                    assert(old_done + ((step->0).0 + rest.0) =~= done + rest.0);
                },
                None => {},
            }
        }
    }
    match place {
        Place::Quoted(_) => None,
        _ => {
            proof {
                assert(done + Seq::<PieceModel>::empty() =~= done);
            }
            Some((parts, i))
        },
    }
}

fn build_leaf(v: &[char], from: usize, as_type: bool) -> (r: Option<(EditQueryLeaf, usize)>)
    requires
        from <= v@.len(),
    ensures
        match r {
            Some(l) => leaf_at(v@, from as int, as_type) == Some((l.0@, l.1 as int)) && from <= l.1
                <= v@.len(),
            None => leaf_at(v@, from as int, as_type) is None,
        },
{
    if from < v.len() && (v[from] == '"' || v[from] == '\'') {
        match read_parts(Place::Quoted(v[from]), v, from + 1) {
            Some(p) => Some((EditQueryLeaf { parts: p.0, quoted: true }, p.1 + 1)),
            None => None,
        }
    } else {
        let place = if as_type {
            Place::Type
        } else {
            Place::Label
        };
        match read_parts(place, v, from) {
            Some(p) => if as_type && p.1 == from {
                None
            } else {
                Some((EditQueryLeaf { parts: p.0, quoted: false }, p.1))
            },
            None => None,
        }
    }
}

fn build_node(v: &[char], from: usize) -> (r: Option<(EditQueryNode, usize)>)
    requires
        from <= v@.len(),
    ensures
        match r {
            Some(n) => node_at(v@, from as int) == Some((n.0@, n.1 as int)) && from < n.1
                <= v@.len(),
            None => node_at(v@, from as int) is None,
        },
{
    proof {
        lemma_node_at(v@, from as int);
    }
    match build_leaf(v, from, true) {
        None => None,
        Some(t) => {
            let (tag_type, end) = t;
            if end >= v.len() || v[end] != ':' {
                return None;
            }
            if end + 1 >= v.len() || char_is_white(v[end + 1]) {
                return Some((EditQueryNode { tag_type, label: None }, end + 1));
            }
            match build_leaf(v, end + 1, false) {
                None => None,
                Some(l) => {
                    let (label, stop) = l;
                    if stop >= v.len() || char_is_white(v[stop]) {
                        Some((EditQueryNode { tag_type, label: Some(label) }, stop))
                    } else {
                        None
                    }
                },
            }
        },
    }
}

fn build_nodes(v: &[char]) -> (r: Result<Vec<EditQueryNode>, usize>)
    ensures
        match r {
            Ok(n) => query_nodes(v@) == Some(node_models(n@)),
            Err(at) => query_nodes(v@) is None && at == refused_at(v@),
        },
{
    let mut nodes: Vec<EditQueryNode> = Vec::new();
    let mut i: usize = exec_skip_white(v, 0);
    let ghost whole = query_nodes(v@);
    proof {
        if whole is Some {
            assert(node_models(nodes@) + whole->0 =~= whole->0);
        }
    }
    loop
        invariant
            i <= v@.len(),
            whole == query_nodes(v@),
            refused_at(v@) == refused_from(v@, i as int),
            whole == (match nodes_from(v@, i as int) {
                Some(rest) => Some(node_models(nodes@) + rest),
                None => None,
            }),
        decreases v@.len() - i,
    {
        match build_node(v, i) {
            None => {
                return Err(i);
            },
            Some(n) => {
                let (node, end) = n;
                let ghost before = nodes@;
                let ghost here = node@;
                nodes.push(node);
                proof {
                    assert(node_models(nodes@) =~= node_models(before).push(here));
                }
                let k: usize = exec_skip_white(v, end);
                if k >= v.len() {
                    proof {
                        assert(node_models(before) + seq![here] =~= node_models(nodes@));
                    }
                    return Ok(nodes);
                }
                let start: usize = if v[k] == '|' {
                    if k + 1 >= v.len() || !char_is_white(v[k + 1]) {
                        return Err(k);
                    }
                    exec_skip_white(v, k + 1)
                } else {
                    k
                };
                proof {
                    match nodes_from(v@, start as int) {
                        Some(rest) => {
                            assert(node_models(before) + (seq![here] + rest) =~= node_models(
                                nodes@,
                            ) + rest);
                        },
                        None => {},
                    }
                }
                i = start;
            },
        }
    }
}

// ---------------------------------------------------------------------------
// What a query may say
// ---------------------------------------------------------------------------

/// The types that stand for a group of types and cannot be set.
pub open spec fn is_meta_type(name: Seq<char>) -> bool {
    name == "type"@ || name == "label"@ || name == "tag"@
}

/// Why a pair is refused, if it is. What a reference stands for is not known yet, so a
/// pair whose type holds one is not looked at.
pub open spec fn node_error(n: NodeModel, qt: QueryType, reg: Seq<tag::TagFnModel>) -> Option<
    EditErrorModel,
> {
    let name = n.tag_type.valued();
    if n.tag_type.braced() {
        None
    } else if name.len() == 0 {
        Some(EditErrorModel::EmptyType)
    } else if is_meta_type(name) {
        Some(EditErrorModel::MetaType(name))
    } else if tag::forbidden(reg, name) {
        Some(EditErrorModel::Forbidden(name))
    } else if qt == QueryType::Tag && n.label is None {
        Some(EditErrorModel::Projection(name))
    } else {
        None
    }
}

/// The first reason why one of the pairs is refused.
pub open spec fn first_error(nodes: Seq<NodeModel>, qt: QueryType, reg: Seq<tag::TagFnModel>) -> Option<
    EditErrorModel,
>
    decreases nodes.len(),
{
    if nodes.len() == 0 {
        None
    } else {
        match node_error(nodes[0], qt, reg) {
            Some(e) => Some(e),
            None => first_error(nodes.skip(1), qt, reg),
        }
    }
}

/// Whether a pair sets a type that holds one value to a value without references.
pub open spec fn sets_one(n: NodeModel, reg: Seq<tag::TagFnModel>) -> bool {
    &&& !n.tag_type.braced()
    &&& n.label is Some
    &&& !n.label->0.braced()
    &&& tag::edit_of(reg, n.tag_type.valued()) is Some
    &&& tag::edit_of(reg, n.tag_type.valued())->0.strategy == EditStrategy::Replace
}

/// Whether an earlier pair sets the same type as the pair `i`, both to values without
/// references.
pub open spec fn set_before(nodes: Seq<NodeModel>, i: int, reg: Seq<tag::TagFnModel>) -> bool {
    &&& sets_one(nodes[i], reg)
    &&& exists|j: int|
        0 <= j < i && sets_one(#[trigger] nodes[j], reg) && nodes[j].tag_type.valued()
            == nodes[i].tag_type.valued()
}

/// Whether `i` is the first pair that sets a type a second time.
pub open spec fn first_set_again(nodes: Seq<NodeModel>, i: int, reg: Seq<tag::TagFnModel>) -> bool {
    &&& 0 <= i < nodes.len()
    &&& set_before(nodes, i, reg)
    &&& forall|k: int| 0 <= k < i ==> !#[trigger] set_before(nodes, k, reg)
}

fn is_forbidden(reg: &TagRegistry, name: &str) -> (r: bool)
    ensures
        r == tag::forbidden(reg@, name@),
{
    match reg.get(name) {
        Some(f) => f.edit.is_none(),
        None => false,
    }
}

/// Refuses a query that sets a type that holds one value twice.
fn reject_static_multi_literal(nodes: &Vec<EditQueryNode>, reg: &TagRegistry) -> (r: Result<
    (),
    EditError,
>)
    ensures
        match r {
            Ok(_) => forall|i: int|
                0 <= i < nodes@.len() ==> !#[trigger] set_before(node_models(nodes@), i, reg@),
            Err(e) => exists|i: int|
                #![trigger node_models(nodes@)[i]]
                first_set_again(node_models(nodes@), i, reg@) && e@
                    == EditErrorModel::AmbiguousReplace(
                    node_models(nodes@)[i].tag_type.valued(),
                ),
        },
{
    let mut seen: Vec<String> = Vec::new();
    let ghost ms = node_models(nodes@);
    let mut i: usize = 0;
    while i < nodes.len()
        invariant
            i <= nodes@.len(),
            ms == node_models(nodes@),
            forall|k: int| 0 <= k < i ==> !#[trigger] set_before(ms, k, reg@),
            forall|k: int|
                0 <= k < i && sets_one(#[trigger] ms[k], reg@) ==> text::texts(seen@).contains(
                    ms[k].tag_type.valued(),
                ),
            forall|n: Seq<char>|
                #[trigger] text::texts(seen@).contains(n) ==> exists|k: int|
                    0 <= k < i && sets_one(#[trigger] ms[k], reg@) && ms[k].tag_type.valued() == n,
        decreases nodes@.len() - i,
    {
        let n = &nodes[i];
        proof {
            assert(ms[i as int] == n@);
        }
        let mut sets = false;
        let name = n.tag_type.value();
        if !n.tag_type.has_braced() {
            match &n.label {
                Some(label) => {
                    if !label.has_braced() {
                        match reg.strategy(name.as_str()) {
                            Some(s) => {
                                sets = s == EditStrategy::Replace;
                            },
                            None => {},
                        }
                    }
                },
                None => {},
            }
        }
        proof {
            assert(sets == sets_one(ms[i as int], reg@));
        }
        if sets {
            if contains_text(&seen, name.as_str()) {
                proof {
                    let k = choose|k: int|
                        0 <= k < i && sets_one(#[trigger] ms[k], reg@) && ms[k].tag_type.valued()
                            == name@;
                    assert(ms[k].tag_type.valued() == ms[i as int].tag_type.valued());
                    assert(set_before(ms, i as int, reg@));
                    assert(first_set_again(ms, i as int, reg@));
                }
                return Err(EditError::AmbiguousReplace(name));
            }
            let ghost before = seen@;
            proof {
                if set_before(ms, i as int, reg@) {
                    let k = choose|k: int|
                        0 <= k < i && sets_one(#[trigger] ms[k], reg@) && ms[k].tag_type.valued()
                            == ms[i as int].tag_type.valued();
                    assert(text::texts(before).contains(ms[k].tag_type.valued()));
                }
            }
            seen.push(name);
            proof {
                text::lemma_texts_push(before, name);
                let t = text::texts(before);
                assert(t.push(name@)[t.len() as int] == name@);
                assert forall|k: int| 0 <= k < i + 1 && sets_one(#[trigger] ms[k], reg@) implies text::texts(
                    seen@,
                ).contains(ms[k].tag_type.valued()) by {
                    if k < i {
                        let m = ms[k].tag_type.valued();
                        let x = choose|x: int| 0 <= x < t.len() && t[x] == m;
                        assert(t.push(name@)[x] == m);
                    }
                }
                assert forall|m: Seq<char>| #[trigger] text::texts(seen@).contains(m) implies exists|
                    k: int,
                |
                    0 <= k < i + 1 && sets_one(#[trigger] ms[k], reg@) && ms[k].tag_type.valued()
                        == m by {
                    let x = choose|x: int| 0 <= x < t.push(name@).len() && t.push(name@)[x] == m;
                    if x < t.len() {
                        assert(t[x] == m);
                        assert(t.contains(m));
                        let k = choose|k: int|
                            0 <= k < i && sets_one(#[trigger] ms[k], reg@)
                                && ms[k].tag_type.valued() == m;
                        assert(sets_one(ms[k], reg@));
                    } else {
                        assert(sets_one(ms[i as int], reg@));
                    }
                }
            }
        }
        i += 1;
    }
    Ok(())
}

/// What parsing a query gives: its pairs, or the reason why it is refused.
pub open spec fn parsed_as(
    r: Result<EditQuery, EditError>,
    q: Seq<char>,
    qt: QueryType,
    reg: Seq<tag::TagFnModel>,
) -> bool {
    match query_nodes(q) {
        None => r matches Err(e) && e@ == EditErrorModel::InvalidQuery(q, refused_at(q) as usize),
        Some(nodes) => match first_error(nodes, qt, reg) {
            Some(reason) => r matches Err(e) && e@ == reason,
            None => match r {
                Ok(query) => query@ == nodes && forall|i: int|
                    0 <= i < nodes.len() ==> !#[trigger] set_before(nodes, i, reg),
                Err(e) => exists|i: int|
                    #![trigger nodes[i]]
                    first_set_again(nodes, i, reg) && e@ == EditErrorModel::AmbiguousReplace(
                        nodes[i].tag_type.valued(),
                    ),
            },
        },
    }
}

/// Parses an edit query, and refuses what no edit can carry out.
pub fn parse_edit_query(q: &str, qt: QueryType, reg: &TagRegistry) -> (r: Result<
    EditQuery,
    EditError,
>)
    ensures
        parsed_as(r, q@, qt, reg@),
{
    let v = chars_of(q);
    let nodes = match build_nodes(&v) {
        Ok(nodes) => nodes,
        Err(at) => {
            return Err(EditError::InvalidQuery(q.to_owned(), at));
        },
    };
    let ghost ms = node_models(nodes@);
    let mut i: usize = 0;
    proof {
        assert(ms.skip(0) =~= ms);
    }
    while i < nodes.len()
        invariant
            i <= nodes@.len(),
            ms == node_models(nodes@),
            query_nodes(q@) == Some(ms),
            first_error(ms, qt, reg@) == first_error(ms.skip(i as int), qt, reg@),
        decreases nodes@.len() - i,
    {
        let n = &nodes[i];
        proof {
            assert(ms.skip(i as int)[0] == n@);
            assert(ms.skip(i as int).skip(1) =~= ms.skip(i + 1));
        }
        if !n.tag_type.has_braced() {
            let name = n.tag_type.value();
            if name.as_str().is_empty() {
                return Err(EditError::EmptyType);
            }
            if str_eq(name.as_str(), "type") || str_eq(name.as_str(), "label") || str_eq(
                name.as_str(),
                "tag",
            ) {
                return Err(EditError::MetaType(name));
            }
            if is_forbidden(reg, name.as_str()) {
                return Err(EditError::Forbidden(name));
            }
            if qt == QueryType::Tag && n.label.is_none() {
                return Err(EditError::Projection(name));
            }
        }
        i += 1;
    }
    match reject_static_multi_literal(&nodes, reg) {
        Ok(_) => Ok(EditQuery { nodes }),
        Err(e) => Err(e),
    }
}

} // verus!
