//! The levels of authorization and who holds them.

use vstd::prelude::*;

verus! {

/// How far an authenticated session reaches. Each level but the lowest and
/// the highest names the part of the store that it is for.
#[derive(Debug, PartialEq, Eq)]
pub enum Level {
    /// Not authenticated.
    No,
    /// A user of a scope: namespace, database, scope.
    Scope(String, String, String),
    /// A database: namespace, database.
    Database(String, String),
    /// A namespace.
    Namespace(String),
    /// Everything.
    Root,
}

pub enum LevelView {
    No,
    Scope(Seq<char>, Seq<char>, Seq<char>),
    Database(Seq<char>, Seq<char>),
    Namespace(Seq<char>),
    Root,
}

impl View for Level {
    type V = LevelView;

    open spec fn view(&self) -> LevelView {
        match self {
            Level::No => LevelView::No,
            Level::Scope(n, d, s) => LevelView::Scope(n@, d@, s@),
            Level::Database(n, d) => LevelView::Database(n@, d@),
            Level::Namespace(n) => LevelView::Namespace(n@),
            Level::Root => LevelView::Root,
        }
    }
}

impl Clone for Level {
    fn clone(&self) -> (r: Level)
        ensures
            r@ == self@,
    {
        match self {
            Level::No => Level::No,
            Level::Scope(n, d, s) => Level::Scope(n.clone(), d.clone(), s.clone()),
            Level::Database(n, d) => Level::Database(n.clone(), d.clone()),
            Level::Namespace(n) => Level::Namespace(n.clone()),
            Level::Root => Level::Root,
        }
    }
}

/// A level names no part of the store by an empty name.
pub open spec fn is_level(l: LevelView) -> bool {
    match l {
        LevelView::No => true,
        LevelView::Scope(n, d, s) => n.len() > 0 && d.len() > 0 && s.len() > 0,
        LevelView::Database(n, d) => n.len() > 0 && d.len() > 0,
        LevelView::Namespace(n) => n.len() > 0,
        LevelView::Root => true,
    }
}

/// The strength of a level, from 0 for none to 4 for root.
pub open spec fn rank(l: LevelView) -> int {
    match l {
        LevelView::No => 0,
        LevelView::Scope(_, _, _) => 1,
        LevelView::Database(_, _) => 2,
        LevelView::Namespace(_) => 3,
        LevelView::Root => 4,
    }
}

/// The names that lead to what a level is for: namespace, database, scope,
/// as far as the level goes.
pub open spec fn path(l: LevelView) -> Seq<Seq<char>> {
    match l {
        LevelView::No => seq![],
        LevelView::Scope(n, d, s) => seq![n, d, s],
        LevelView::Database(n, d) => seq![n, d],
        LevelView::Namespace(n) => seq![n],
        LevelView::Root => seq![],
    }
}

/// Whether a session of level `granted` may do what asks for `required`:
/// nothing is asked for, or `granted` is for the part of the store that
/// `required` names or for a part that holds it.
pub open spec fn reaches(granted: LevelView, required: LevelView) -> bool {
    match required {
        LevelView::No => true,
        LevelView::Scope(n, d, s) => match granted {
            LevelView::No => false,
            LevelView::Scope(a, b, c) => a == n && b == d && c == s,
            LevelView::Database(a, b) => a == n && b == d,
            LevelView::Namespace(a) => a == n,
            LevelView::Root => true,
        },
        LevelView::Database(n, d) => match granted {
            LevelView::Database(a, b) => a == n && b == d,
            LevelView::Namespace(a) => a == n,
            LevelView::Root => true,
            _ => false,
        },
        LevelView::Namespace(n) => match granted {
            LevelView::Namespace(a) => a == n,
            LevelView::Root => true,
            _ => false,
        },
        LevelView::Root => granted is Root,
    }
}

/// A level reaches another exactly when it is that level, or is stronger
/// and its names are the first of the other's names.
pub proof fn lemma_reaches_is_order(granted: LevelView, required: LevelView)
    ensures
        reaches(granted, required) <==> (granted == required || (rank(granted) > rank(required)
            && (required is No || path(granted).is_prefix_of(path(required))))),
{
    let g = path(granted);
    let r = path(required);
    if g.len() <= r.len() {
        assert(g.is_prefix_of(r) <==> forall|i: int| 0 <= i < g.len() ==> g[i] == r[i]) by {
            if forall|i: int| 0 <= i < g.len() ==> g[i] == r[i] {
                assert(g =~= r.subrange(0, g.len() as int));
            }
            if g.is_prefix_of(r) {
                assert forall|i: int| 0 <= i < g.len() implies g[i] == r[i] by {
                    assert(r.subrange(0, g.len() as int)[i] == r[i]);
                }
            }
        }
        if g.len() > 0 {
            assert(g.is_prefix_of(r) ==> g[0] == r[0]);
        }
        if g.len() > 1 {
            assert(g.is_prefix_of(r) ==> g[1] == r[1]);
        }
        if g.len() > 2 {
            assert(g.is_prefix_of(r) ==> g[2] == r[2]);
        }
    }
}

/// Every level reaches itself.
pub proof fn lemma_reaches_reflexive(l: LevelView)
    ensures
        reaches(l, l),
{
}

/// What reaches a level reaches all that the level reaches.
pub proof fn lemma_reaches_transitive(a: LevelView, b: LevelView, c: LevelView)
    requires
        reaches(a, b),
        reaches(b, c),
    ensures
        reaches(a, c),
{
}

/// Two levels that reach each other are one level.
pub proof fn lemma_reaches_antisymmetric(a: LevelView, b: LevelView)
    requires
        reaches(a, b),
        reaches(b, a),
    ensures
        a == b,
{
}

/// Root reaches every level, every level reaches none, and none reaches
/// nothing but itself.
pub proof fn lemma_reaches_bounds(l: LevelView)
    ensures
        reaches(LevelView::Root, l),
        reaches(l, LevelView::No),
        reaches(LevelView::No, l) <==> l is No,
{
}

impl Level {
    /// Whether the level names no part of the store by an empty name.
    pub fn is_valid(&self) -> (r: bool)
        ensures
            r == is_level(self@),
    {
        match self {
            Level::No => true,
            Level::Scope(n, d, s) => n.as_str().unicode_len() > 0 && d.as_str().unicode_len() > 0
                && s.as_str().unicode_len() > 0,
            Level::Database(n, d) => n.as_str().unicode_len() > 0 && d.as_str().unicode_len()
                > 0,
            Level::Namespace(n) => n.as_str().unicode_len() > 0,
            Level::Root => true,
        }
    }

    /// Whether a session of this level may do what asks for `required`.
    pub fn reaches(&self, required: &Level) -> (r: bool)
        ensures
            r == reaches(self@, required@),
    {
        match required {
            Level::No => true,
            Level::Scope(n, d, s) => match self {
                Level::No => false,
                Level::Scope(a, b, c) => *a == *n && *b == *d && *c == *s,
                Level::Database(a, b) => *a == *n && *b == *d,
                Level::Namespace(a) => *a == *n,
                Level::Root => true,
            },
            Level::Database(n, d) => match self {
                Level::Database(a, b) => *a == *n && *b == *d,
                Level::Namespace(a) => *a == *n,
                Level::Root => true,
                _ => false,
            },
            Level::Namespace(n) => match self {
                Level::Namespace(a) => *a == *n,
                Level::Root => true,
                _ => false,
            },
            Level::Root => match self {
                Level::Root => true,
                _ => false,
            },
        }
    }
}

/// Who a session acts as: an identity and the level it holds.
#[derive(Debug, PartialEq, Eq)]
pub struct Actor {
    pub id: String,
    pub level: Level,
}

pub struct ActorView {
    pub id: Seq<char>,
    pub level: LevelView,
}

impl View for Actor {
    type V = ActorView;

    open spec fn view(&self) -> ActorView {
        ActorView { id: self.id@, level: self.level@ }
    }
}

impl Clone for Actor {
    fn clone(&self) -> (r: Actor)
        ensures
            r@ == self@,
    {
        Actor { id: self.id.clone(), level: self.level.clone() }
    }
}

impl Actor {
    pub fn new(id: String, level: Level) -> (r: Actor)
        ensures
            r@ == (ActorView { id: id@, level: level@ }),
    {
        Actor { id, level }
    }
}

impl Default for Actor {
    /// Nobody: an empty identity at no level.
    fn default() -> (r: Actor)
        ensures
            r@ == (ActorView { id: Seq::empty(), level: LevelView::No }),
    {
        Actor { id: String::new(), level: Level::No }
    }
}

} // verus!
