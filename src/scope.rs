//! The scope tree: named child scopes for declarations, unnamed ones for
//! blocks and control structures, and a token stream per scope.

use vstd::prelude::*;
use crate::ast::{
    BlockStmt, CaseStmt, Expression, ForStmt, IfStmt, ReturnStmt, Statement, SwitchStmt, WhileStmt,
};
use crate::to_token::{append_tokens, linearize, linearize_expression, push_token, shapes, TokenShape};
use crate::token::{ControlFlow, Token};

verus! {

#[derive(Clone, Copy, Debug, PartialEq, Eq, Structural)]
pub enum ScopeType {
    Function,
    Var,
    While,
    Switch,
    Return,
    Case,
    If,
    Else,
    For,
    Root,
    Block,
}

#[derive(Debug)]
pub struct Scope {
    pub name: Option<String>,
    /// The names of the named ancestors, outermost first.
    pub parents: Vec<String>,
    pub childs: Vec<Scope>,
    pub token_stream: Vec<Token>,
    pub scope_type: ScopeType,
}

/// The names of the named scopes in `cs`, in order.
pub open spec fn named_seq(cs: Seq<Scope>) -> Seq<Seq<char>>
    decreases cs.len(),
{
    if cs.len() == 0 {
        Seq::empty()
    } else {
        let init = named_seq(cs.drop_last());
        match cs.last().name {
            Some(n) => init.push(n@),
            None => init,
        }
    }
}

/// The names declared directly by one statement: a function declaration
/// or a variable declarator gives its own name, a variable declaration the
/// names of its declarators.
pub open spec fn decl_names(s: Statement) -> Set<Seq<char>>
    decreases s,
{
    match s {
        Statement::FunctionDeclaration(f) => set![f.id.name@],
        Statement::VariableDeclarator(d) => set![d.id.name@],
        Statement::VariableDeclaration(v) => declared(v.declarations@),
        _ => Set::empty(),
    }
}

/// The names declared directly at the level of a statement list.
pub open spec fn declared(ss: Seq<Box<Statement>>) -> Set<Seq<char>>
    decreases ss,
{
    if ss.len() == 0 {
        Set::empty()
    } else {
        declared(ss.subrange(0, ss.len() - 1)).union(decl_names(*ss[ss.len() - 1]))
    }
}

/// The tokens a statement adds to the stream of the scope it stands in:
/// an expression statement's tokens, one control-flow token for `break`
/// and `continue`; the rest goes to child scopes.
pub open spec fn stmt_stream(s: Statement) -> Seq<TokenShape>
    decreases s,
{
    match s {
        Statement::ExpressionStatement(e) => linearize(*e.expression),
        Statement::BreakStatement(_) => seq![TokenShape::Ctrl(ControlFlow::Break)],
        Statement::ContinueStatement(_) => seq![TokenShape::Ctrl(ControlFlow::Continue)],
        Statement::VariableDeclaration(v) => list_stream(v.declarations@),
        _ => Seq::empty(),
    }
}

pub open spec fn list_stream(ss: Seq<Box<Statement>>) -> Seq<TokenShape>
    decreases ss,
{
    if ss.len() == 0 {
        Seq::empty()
    } else {
        list_stream(ss.subrange(0, ss.len() - 1)) + stmt_stream(*ss[ss.len() - 1])
    }
}

/// The ancestors a child of `parent` records.
pub open spec fn ancestors_below(parent: Option<Scope>) -> Seq<Seq<char>> {
    match parent {
        None => Seq::empty(),
        Some(p) => {
            let ps = p.parents@.map_values(|s: String| s@);
            match p.name {
                Some(n) => ps.push(n@),
                None => ps,
            }
        },
    }
}

impl Scope {
    /// Named children have distinct names.
    pub open spec fn wf(&self) -> bool {
        named_seq(self.childs@).no_duplicates()
    }

    /// The names of the named children.
    pub open spec fn child_names(&self) -> Set<Seq<char>> {
        named_seq(self.childs@).to_set()
    }

    /// An unnamed scope below `parent`, with no children and no tokens.
    pub fn new(parent: Option<&Scope>, sc_type: ScopeType) -> (r: Scope)
        ensures
            r.name is None,
            r.parents@.map_values(|s: String| s@) == ancestors_below(
                match parent {
                    Some(p) => Some(*p),
                    None => None,
                },
            ),
            r.childs@.len() == 0,
            r.token_stream@.len() == 0,
            r.scope_type == sc_type,
            r.wf(),
    {
        let mut parents: Vec<String> = Vec::new();
        match parent {
            Some(p) => {
                let mut i: usize = 0;
                while i < p.parents.len()
                    invariant
                        i <= p.parents.len(),
                        parents@ == p.parents@.subrange(0, i as int),
                    decreases p.parents.len() - i,
                {
                    parents.push(p.parents[i].clone());
                    i = i + 1;
                    assert(parents@ =~= p.parents@.subrange(0, i as int));
                }
                assert(p.parents@.subrange(0, i as int) =~= p.parents@);
                assert(parents@ == p.parents@);
                match &p.name {
                    Some(n) => {
                        let ghost before = parents@;
                        parents.push(n.clone());
                        assert(parents@.map_values(|s: String| s@) =~= before.map_values(|s: String| s@).push(n@));
                    },
                    None => {},
                }
            },
            None => {
                assert(parents@.map_values(|s: String| s@) =~= Seq::<Seq<char>>::empty());
            },
        }
        let r = Scope {
            name: None,
            parents,
            childs: Vec::new(),
            token_stream: Vec::new(),
            scope_type: sc_type,
        };
        assert(named_seq(r.childs@) =~= Seq::<Seq<char>>::empty());
        r
    }

    /// A scope called `name` below `parent`.
    pub fn new_named(name: String, parent: Option<&Scope>, sc_type: ScopeType) -> (r: Scope)
        ensures
            r.name == Some(name),
            r.parents@.map_values(|s: String| s@) == ancestors_below(
                match parent {
                    Some(p) => Some(*p),
                    None => None,
                },
            ),
            r.childs@.len() == 0,
            r.token_stream@.len() == 0,
            r.scope_type == sc_type,
            r.wf(),
    {
        let mut scope = Scope::new(parent, sc_type);
        scope.name = Some(name);
        scope
    }

    /// The root scope of a traversal.
    pub fn init_root(parent: Option<Scope>) -> (r: Scope)
        ensures
            r.name is None,
            r.parents@.map_values(|s: String| s@) == ancestors_below(parent),
            r.childs@.len() == 0,
            r.token_stream@.len() == 0,
            r.scope_type == ScopeType::Root,
            r.wf(),
    {
        match parent {
            Some(p) => Scope::new(Some(&p), ScopeType::Root),
            None => Scope::new(None, ScopeType::Root),
        }
    }
}

proof fn lemma_named_seq_update(cs: Seq<Scope>, i: int, c: Scope)
    requires
        0 <= i < cs.len(),
        cs[i].name is Some,
        c.name is Some,
        cs[i].name->Some_0@ == c.name->Some_0@,
    ensures
        named_seq(cs.update(i, c)) == named_seq(cs),
    decreases cs.len(),
{
    let u = cs.update(i, c);
    if i == cs.len() - 1 {
        assert(u.drop_last() =~= cs.drop_last());
    } else {
        assert(u.drop_last() =~= cs.drop_last().update(i, c));
        lemma_named_seq_update(cs.drop_last(), i, c);
    }
}

proof fn lemma_named_seq_member(cs: Seq<Scope>, x: Seq<char>)
    requires
        named_seq(cs).contains(x),
    ensures
        exists|j: int| 0 <= j < cs.len() && (#[trigger] cs[j]).name is Some && cs[j].name->Some_0@ == x,
    decreases cs.len(),
{
    let init = named_seq(cs.drop_last());
    match cs.last().name {
        Some(n) => {
            if n@ == x {
                assert(cs[cs.len() - 1].name is Some);
            } else {
                let k = choose|k: int| 0 <= k < named_seq(cs).len() && named_seq(cs)[k] == x;
                assert(init[k] == x);
                lemma_named_seq_member(cs.drop_last(), x);
                let j = choose|j: int| 0 <= j < cs.drop_last().len() && (#[trigger] cs.drop_last()[j]).name is Some
                    && cs.drop_last()[j].name->Some_0@ == x;
                assert(cs[j] == cs.drop_last()[j]);
            }
        },
        None => {
            lemma_named_seq_member(cs.drop_last(), x);
            let j = choose|j: int| 0 <= j < cs.drop_last().len() && (#[trigger] cs.drop_last()[j]).name is Some
                && cs.drop_last()[j].name->Some_0@ == x;
            assert(cs[j] == cs.drop_last()[j]);
        },
    }
}

impl Scope {
    /// Adds a child; a named child replaces an earlier child of the same
    /// name.
    fn insert_child(&mut self, child: Scope)
        requires
            old(self).wf(),
        ensures
            final(self).wf(),
            final(self).child_names() == match child.name {
                Some(n) => old(self).child_names().insert(n@),
                None => old(self).child_names(),
            },
            final(self).name == old(self).name,
            final(self).parents == old(self).parents,
            final(self).token_stream == old(self).token_stream,
            final(self).scope_type == old(self).scope_type,
            replaces_or_appends(old(self).childs@, final(self).childs@, child),
            child.name is Some ==> child_for(final(self).childs@, child.name->Some_0@, child),
            keeps_others(
                old(self).childs@,
                final(self).childs@,
                match child.name {
                    Some(n) => set![n@],
                    None => Set::empty(),
                },
            ),
    {
        broadcast use vstd::seq_lib::group_seq_properties;
        match &child.name {
            Some(n) => {
                let mut i: usize = 0;
                while i < self.childs.len()
                    invariant
                        i <= self.childs.len(),
                        *self == *old(self),
                        old(self).wf(),
                        child.name == Some(*n),
                        forall|j: int|
                            0 <= j < i ==> !((#[trigger] self.childs@[j]).name matches Some(m) && m@ == n@),
                    decreases self.childs.len() - i,
                {
                    let same = match &self.childs[i].name {
                        Some(m) => m.eq(n),
                        None => false,
                    };
                    if same {
                        proof {
                            lemma_named_seq_update(self.childs@, i as int, child);
                            assert(named_seq(self.childs@).contains(n@)) by {
                                assert(named_seq(self.childs@).to_set().contains(n@)) by {
                                    lemma_named_seq_update_contains(self.childs@, i as int);
                                }
                            }
                            assert(named_seq(self.childs@).to_set().insert(n@) =~= named_seq(
                                self.childs@,
                            ).to_set());
                        }
                        let ghost before = self.childs@;
                        proof {
                            assert(named_at(before, i as int, n@));
                            lemma_update_keeps(before, i as int, child);
                        }
                        self.childs.set(i, child);
                        assert(self.childs@ == before.update(i as int, child));
                        assert(named_seq(self.childs@) == named_seq(old(self).childs@));
                        return;
                    }
                    i = i + 1;
                }
                proof {
                    if named_seq(self.childs@).contains(n@) {
                        lemma_named_seq_member(self.childs@, n@);
                    }
                    let cs2 = self.childs@.push(child);
                    assert(cs2.drop_last() =~= self.childs@);
                    lemma_push_keeps(self.childs@, child);
                    lemma_keeps_weaken(self.childs@, cs2, Set::empty(), set![n@]);
                }
                self.childs.push(child);
            },
            None => {
                proof {
                    let cs2 = self.childs@.push(child);
                    assert(cs2.drop_last() =~= self.childs@);
                    lemma_push_keeps(self.childs@, child);
                }
                self.childs.push(child);
            },
        }
    }

    /// Appends the tokens of `expression` to this scope's stream.
    fn tokenize(&mut self, expression: &Expression)
        ensures
            shapes(final(self).token_stream@) == shapes(old(self).token_stream@) + linearize(*expression),
            final(self).childs == old(self).childs,
            final(self).name == old(self).name,
            final(self).parents == old(self).parents,
            final(self).scope_type == old(self).scope_type,
    {
        append_tokens(&mut self.token_stream, linearize_expression(expression));
    }
}

/// A child at index `i` with a name puts that name among the child names.
proof fn lemma_named_seq_update_contains(cs: Seq<Scope>, i: int)
    requires
        0 <= i < cs.len(),
        cs[i].name is Some,
    ensures
        named_seq(cs).to_set().contains(cs[i].name->Some_0@),
    decreases cs.len(),
{
    if i == cs.len() - 1 {
        assert(named_seq(cs).last() == cs[i].name->Some_0@);
        assert(named_seq(cs).contains(cs[i].name->Some_0@));
    } else {
        assert(cs.drop_last()[i] == cs[i]);
        lemma_named_seq_update_contains(cs.drop_last(), i);
        let x = cs[i].name->Some_0@;
        let init = named_seq(cs.drop_last());
        let k = choose|k: int| 0 <= k < init.len() && init[k] == x;
        match cs.last().name {
            Some(n) => {
                assert(named_seq(cs)[k] == x);
            },
            None => {},
        }
        assert(named_seq(cs).contains(x));
    }
}

/// The declaration of `n` that a statement makes last, if any.
pub open spec fn decl_of(s: Statement, n: Seq<char>) -> Option<Statement>
    decreases s,
{
    match s {
        Statement::FunctionDeclaration(f) => if f.id.name@ == n {
            Some(s)
        } else {
            None
        },
        Statement::VariableDeclarator(d) => if d.id.name@ == n {
            Some(s)
        } else {
            None
        },
        Statement::VariableDeclaration(v) => last_decl(v.declarations@, n),
        _ => None,
    }
}

/// The last declaration of `n` directly at the level of a statement list.
pub open spec fn last_decl(ss: Seq<Box<Statement>>, n: Seq<char>) -> Option<Statement>
    decreases ss,
{
    if ss.len() == 0 {
        None
    } else {
        match decl_of(*ss[ss.len() - 1], n) {
            Some(d) => Some(d),
            None => last_decl(ss.subrange(0, ss.len() - 1), n),
        }
    }
}

pub open spec fn named_at(cs: Seq<Scope>, j: int, n: Seq<char>) -> bool {
    0 <= j < cs.len() && cs[j].name is Some && cs[j].name->Some_0@ == n
}

/// `c` is the child called `n`.
pub open spec fn child_for(cs: Seq<Scope>, n: Seq<char>, c: Scope) -> bool {
    exists|j: int| #[trigger] named_at(cs, j, n) && cs[j] == c
}

/// Every named child whose name is not in `names` is still there.
pub open spec fn keeps_others(before: Seq<Scope>, after: Seq<Scope>, names: Set<Seq<char>>) -> bool {
    forall|n: Seq<char>, c: Scope|
        !names.contains(n) && #[trigger] child_for(before, n, c) ==> child_for(after, n, c)
}

/// The child called `n` is the scope that the declaration `d` makes.
pub open spec fn holds_decl(cs: Seq<Scope>, n: Seq<char>, d: Statement) -> bool {
    exists|c: Scope| child_for(cs, n, c) && declared_child(c, d)
}

/// Each name declared in `ss` has the child made by its last declaration
/// (a later declaration of a name replaces an earlier one), and the other
/// named children are kept.
pub open spec fn last_writer_wins(before: Seq<Scope>, after: Seq<Scope>, ss: Seq<Box<Statement>>) -> bool {
    &&& forall|n: Seq<char>| #[trigger] declared(ss).contains(n) ==> holds_decl(after, n, last_decl(ss, n)->Some_0)
    &&& keeps_others(before, after, declared(ss))
}

pub open spec fn stmt_writer_wins(before: Seq<Scope>, after: Seq<Scope>, s: Statement) -> bool {
    &&& forall|n: Seq<char>| #[trigger] decl_names(s).contains(n) ==> holds_decl(after, n, decl_of(s, n)->Some_0)
    &&& keeps_others(before, after, decl_names(s))
}

proof fn lemma_decl_of_names(s: Statement, n: Seq<char>)
    ensures
        decl_of(s, n) is Some <==> decl_names(s).contains(n),
    decreases s,
{
    match s {
        Statement::VariableDeclaration(v) => lemma_last_decl_names(v.declarations@, n),
        _ => {},
    }
}

proof fn lemma_last_decl_names(ss: Seq<Box<Statement>>, n: Seq<char>)
    ensures
        last_decl(ss, n) is Some <==> declared(ss).contains(n),
    decreases ss,
{
    if ss.len() > 0 {
        lemma_decl_of_names(*ss[ss.len() - 1], n);
        lemma_last_decl_names(ss.subrange(0, ss.len() - 1), n);
    }
}

proof fn lemma_push_keeps(before: Seq<Scope>, child: Scope)
    ensures
        keeps_others(before, before.push(child), Set::empty()),
        child.name is Some ==> child_for(before.push(child), child.name->Some_0@, child),
{
    let after = before.push(child);
    assert forall|n: Seq<char>, c: Scope| #[trigger] child_for(before, n, c) implies child_for(after, n, c) by {
        let j = choose|j: int| #[trigger] named_at(before, j, n) && before[j] == c;
        assert(named_at(after, j, n));
    }
    if child.name is Some {
        assert(named_at(after, before.len() as int, child.name->Some_0@));
    }
}

proof fn lemma_update_keeps(before: Seq<Scope>, i: int, child: Scope)
    requires
        child.name is Some,
        named_at(before, i, child.name->Some_0@),
        named_seq(before).no_duplicates(),
    ensures
        keeps_others(before, before.update(i, child), set![child.name->Some_0@]),
        child_for(before.update(i, child), child.name->Some_0@, child),
{
    let after = before.update(i, child);
    let m = child.name->Some_0@;
    assert forall|n: Seq<char>, c: Scope| !set![m].contains(n) && #[trigger] child_for(before, n, c) implies child_for(
        after,
        n,
        c,
    ) by {
        let j = choose|j: int| #[trigger] named_at(before, j, n) && before[j] == c;
        assert(j != i);
        assert(named_at(after, j, n));
    }
    assert(named_at(after, i, m));
}

proof fn lemma_keeps_trans(a: Seq<Scope>, b: Seq<Scope>, c: Seq<Scope>, s1: Set<Seq<char>>, s2: Set<Seq<char>>)
    requires
        keeps_others(a, b, s1),
        keeps_others(b, c, s2),
    ensures
        keeps_others(a, c, s1.union(s2)),
{
    assert forall|n: Seq<char>, x: Scope| !s1.union(s2).contains(n) && #[trigger] child_for(a, n, x) implies child_for(
        c,
        n,
        x,
    ) by {
        assert(child_for(b, n, x));
    }
}

proof fn lemma_keeps_weaken(a: Seq<Scope>, b: Seq<Scope>, s1: Set<Seq<char>>, s2: Set<Seq<char>>)
    requires
        keeps_others(a, b, s1),
        s1.subset_of(s2),
    ensures
        keeps_others(a, b, s2),
{
    assert forall|n: Seq<char>, x: Scope| !s2.contains(n) && #[trigger] child_for(a, n, x) implies child_for(
        b,
        n,
        x,
    ) by {
        assert(!s1.contains(n));
    }
}


/// An unnamed child goes at the end; a named child replaces the child of
/// the same name, or goes at the end when there is none.
pub open spec fn replaces_or_appends(before: Seq<Scope>, after: Seq<Scope>, child: Scope) -> bool {
    match child.name {
        None => after == before.push(child),
        Some(n) => after == before.push(child) || exists|j: int|
            0 <= j < before.len() && (#[trigger] before[j]).name is Some && before[j].name->Some_0@ == n@
                && after == before.update(j, child),
    }
}

pub open spec fn opt_tokens(e: Option<Box<Expression>>) -> Seq<TokenShape> {
    match e {
        Some(x) => linearize(*x),
        None => Seq::empty(),
    }
}

/// `c` is an unnamed scope of kind `kind` whose stream is `stream`.
pub open spec fn opened(c: Scope, kind: ScopeType, stream: Seq<TokenShape>) -> bool {
    &&& c.name is None
    &&& c.scope_type == kind
    &&& shapes(c.token_stream@) == stream
}

/// `c` is the named scope a declaration makes: a function scope holding
/// what its body declares and the tokens of its body, or a variable scope
/// holding the tokens of its initializer, or `Undefined`.
pub open spec fn declared_child(c: Scope, s: Statement) -> bool {
    match s {
        Statement::FunctionDeclaration(f) => {
            &&& c.name is Some && c.name->Some_0@ == f.id.name@
            &&& c.scope_type == ScopeType::Function
            &&& c.child_names() == declared(f.body.body@)
            &&& shapes(c.token_stream@) == list_stream(f.body.body@)
        },
        Statement::VariableDeclarator(v) => {
            &&& c.name is Some && c.name->Some_0@ == v.id.name@
            &&& c.scope_type == ScopeType::Var
            &&& shapes(c.token_stream@) == match v.init {
                Some(e) => linearize(*e),
                None => seq![TokenShape::Undefined],
            }
        },
        _ => false,
    }
}

/// The children a statement leaves: a control structure or block appends
/// one unnamed child of its kind holding its test, update, discriminant or
/// argument tokens (an `if` with an alternate also appends an `Else`
/// child); a declaration adds or replaces its named child; `break`,
/// `continue`, expression and empty statements leave the children as they
/// were.
pub open spec fn children_after(s: Statement, before: Seq<Scope>, after: Seq<Scope>) -> bool {
    match s {
        Statement::BlockStatement(b) => exists|c: Scope|
            after == before.push(c) && opened(c, ScopeType::Block, list_stream(b.body@))
                && c.child_names() == declared(b.body@),
        Statement::WhileStatement(w) => exists|c: Scope|
            after == before.push(c) && opened(c, ScopeType::While, linearize(*w.test) + stmt_stream(*w.body)),
        Statement::ForStatement(f) => exists|c: Scope|
            after == before.push(c) && opened(
                c,
                ScopeType::For,
                opt_tokens(f.init) + opt_tokens(f.test) + opt_tokens(f.update) + stmt_stream(*f.body),
            ),
        Statement::IfStatement(i) => exists|c: Scope|
            opened(c, ScopeType::If, linearize(*i.test) + stmt_stream(*i.consequent)) && match i.alternate {
                None => after == before.push(c),
                Some(a) => exists|d: Scope|
                    after == before.push(c).push(d) && opened(d, ScopeType::Else, stmt_stream(*a)),
            },
        Statement::SwitchStatement(sw) => exists|c: Scope|
            after == before.push(c) && opened(c, ScopeType::Switch, linearize(*sw.discriminant))
                && c.childs@.len() == sw.cases@.len(),
        Statement::SwitchCase(cs) => exists|c: Scope|
            after == before.push(c) && opened(c, ScopeType::Case, opt_tokens(cs.test) + list_stream(cs.consequent@))
                && c.child_names() == declared(cs.consequent@),
        Statement::ReturnStatement(r) => exists|c: Scope|
            after == before.push(c) && opened(c, ScopeType::Return, opt_tokens(r.argument)),
        Statement::FunctionDeclaration(_) => exists|c: Scope|
            declared_child(c, s) && replaces_or_appends(before, after, c),
        Statement::VariableDeclarator(_) => exists|c: Scope|
            declared_child(c, s) && replaces_or_appends(before, after, c),
        Statement::VariableDeclaration(_) => true,
        _ => after == before,
    }
}

/// `after` is `before` with child names `names` added and `stream` appended
/// to its tokens, all else kept.
pub open spec fn grows(before: Scope, after: Scope, names: Set<Seq<char>>, stream: Seq<TokenShape>) -> bool {
    &&& after.wf()
    &&& after.child_names() == before.child_names().union(names)
    &&& shapes(after.token_stream@) == shapes(before.token_stream@) + stream
    &&& after.name == before.name
    &&& after.parents == before.parents
    &&& after.scope_type == before.scope_type
}

proof fn lemma_grows_trans(
    a: Scope,
    b: Scope,
    c: Scope,
    n1: Set<Seq<char>>,
    s1: Seq<TokenShape>,
    n2: Set<Seq<char>>,
    s2: Seq<TokenShape>,
)
    requires
        grows(a, b, n1, s1),
        grows(b, c, n2, s2),
    ensures
        grows(a, c, n1.union(n2), s1 + s2),
{
    assert(a.child_names().union(n1).union(n2) =~= a.child_names().union(n1.union(n2)));
    assert(shapes(a.token_stream@) + s1 + s2 =~= shapes(a.token_stream@) + (s1 + s2));
}

proof fn lemma_grows_refl(a: Scope)
    requires
        a.wf(),
    ensures
        grows(a, a, Set::empty(), Seq::empty()),
{
    assert(a.child_names().union(Set::empty()) =~= a.child_names());
    assert(shapes(a.token_stream@) + Seq::<TokenShape>::empty() =~= shapes(a.token_stream@));
}

impl Scope {
    /// Explores a statement list: each function declaration and variable
    /// declarator becomes a named child (a later one replacing an earlier
    /// one of the same name), blocks and control structures become unnamed
    /// children, and the other statements' tokens go to this scope's stream.
    pub fn build(&mut self, statements: &Vec<Box<Statement>>)
        requires
            old(self).wf(),
        ensures
            grows(*old(self), *final(self), declared(statements@), list_stream(statements@)),
            last_writer_wins(old(self).childs@, final(self).childs@, statements@),
        decreases statements,
    {
        proof {
            lemma_grows_refl(*self);
            assert(statements@.subrange(0, 0) =~= Seq::<Box<Statement>>::empty());
            assert(declared(statements@.subrange(0, 0)) =~= Set::<Seq<char>>::empty());
        }
        let mut i: usize = 0;
        while i < statements.len()
            invariant
                i <= statements.len(),
                grows(
                    *old(self),
                    *self,
                    declared(statements@.subrange(0, i as int)),
                    list_stream(statements@.subrange(0, i as int)),
                ),
                last_writer_wins(old(self).childs@, self.childs@, statements@.subrange(0, i as int)),
            decreases statements.len() - i,
        {
            let ghost mid = *self;
            proof {
                assert(decreases_to!(statements => statements[i as int]));
                let sub = statements@.subrange(0, i + 1);
                assert(sub.subrange(0, i as int) =~= statements@.subrange(0, i as int));
                assert(sub[i as int] == statements@[i as int]);
            }
            self.explore_statement(&statements[i]);
            proof {
                lemma_grows_trans(
                    *old(self),
                    mid,
                    *self,
                    declared(statements@.subrange(0, i as int)),
                    list_stream(statements@.subrange(0, i as int)),
                    decl_names(*statements@[i as int]),
                    stmt_stream(*statements@[i as int]),
                );
                lemma_build_step(old(self).childs@, mid.childs@, self.childs@, statements@, i as int);
            }
            i = i + 1;
        }
        proof {
            assert(statements@.subrange(0, i as int) =~= statements@);
        }
    }

    fn explore_statement(&mut self, statement: &Statement)
        requires
            old(self).wf(),
        ensures
            grows(*old(self), *final(self), decl_names(*statement), stmt_stream(*statement)),
            children_after(*statement, old(self).childs@, final(self).childs@),
            stmt_writer_wins(old(self).childs@, final(self).childs@, *statement),
        decreases statement,
    {
        match statement {
            Statement::FunctionDeclaration(f) => {
                let mut function_scope = Scope::new_named(
                    f.id.name.clone(),
                    Some(&*self),
                    ScopeType::Function,
                );
                let ghost fresh = function_scope;
                function_scope.build(&f.body.body);
                let ghost c = function_scope;
                proof {
                    assert(named_seq(fresh.childs@) =~= Seq::<Seq<char>>::empty());
                    assert(fresh.child_names() =~= Set::<Seq<char>>::empty());
                    assert(c.child_names() =~= declared(f.body.body@));
                    assert(shapes(fresh.token_stream@) =~= Seq::<TokenShape>::empty());
                    assert(shapes(c.token_stream@) =~= list_stream(f.body.body@));
                    assert(declared_child(c, *statement));
                }
                self.insert_child(function_scope);
                proof {
                    assert(child_for(self.childs@, f.id.name@, c));
                    assert(holds_decl(self.childs@, f.id.name@, *statement));
                    assert forall|n: Seq<char>| #[trigger] decl_names(*statement).contains(n) implies holds_decl(
                        self.childs@,
                        n,
                        decl_of(*statement, n)->Some_0,
                    ) by {
                        assert(n == f.id.name@);
                    }
                    assert(self.child_names() =~= old(self).child_names().union(set![f.id.name@]));
                    assert(shapes(self.token_stream@) =~= shapes(old(self).token_stream@) + Seq::<
                        TokenShape,
                    >::empty());
                }
            },
            Statement::VariableDeclarator(declarator) => {
                let mut var_scope = Scope::new_named(
                    declarator.id.name.clone(),
                    Some(&*self),
                    ScopeType::Var,
                );
                assert(shapes(var_scope.token_stream@) =~= Seq::<TokenShape>::empty());
                match &declarator.init {
                    Some(init) => var_scope.tokenize(init),
                    None => push_token(&mut var_scope.token_stream, Token::Undefined),
                }
                let ghost c = var_scope;
                proof {
                    assert(shapes(c.token_stream@) =~= match declarator.init {
                        Some(e) => linearize(*e),
                        None => seq![TokenShape::Undefined],
                    });
                    assert(declared_child(c, *statement));
                }
                self.insert_child(var_scope);
                proof {
                    assert(child_for(self.childs@, declarator.id.name@, c));
                    assert(holds_decl(self.childs@, declarator.id.name@, *statement));
                    assert forall|n: Seq<char>| #[trigger] decl_names(*statement).contains(n) implies holds_decl(
                        self.childs@,
                        n,
                        decl_of(*statement, n)->Some_0,
                    ) by {
                        assert(n == declarator.id.name@);
                    }
                    assert(self.child_names() =~= old(self).child_names().union(
                        set![declarator.id.name@],
                    ));
                    assert(shapes(self.token_stream@) =~= shapes(old(self).token_stream@) + Seq::<
                        TokenShape,
                    >::empty());
                }
            },
            Statement::VariableDeclaration(v) => self.build(&v.declarations),
            Statement::BlockStatement(block) => self.build_block_scope(block),
            Statement::ExpressionStatement(exp_stmt) => {
                self.tokenize(&exp_stmt.expression);
                proof {
                    assert(self.child_names() =~= old(self).child_names().union(Set::empty()));
                }
            },
            Statement::SwitchStatement(switch) => self.build_switch_scope(switch),
            Statement::SwitchCase(case) => self.build_case_scope(case),
            Statement::IfStatement(if_stmt) => self.build_if_scope(if_stmt),
            Statement::ForStatement(for_stmt) => self.build_for_scope(for_stmt),
            Statement::WhileStatement(while_stmt) => self.build_while_scope(while_stmt),
            Statement::ContinueStatement(_) => self.build_continue_scope(),
            Statement::BreakStatement(_) => self.build_break_scope(),
            Statement::ReturnStatement(return_stmt) => self.build_return_scope(return_stmt),
            Statement::EmptyStatement => {
                proof {
                    lemma_grows_refl(*self);
                }
            },
        }
    }

    /// Adds an unnamed child and nothing else.
    fn push_unnamed(&mut self, child: Scope)
        requires
            old(self).wf(),
            child.name is None,
        ensures
            grows(*old(self), *final(self), Set::empty(), Seq::empty()),
            final(self).childs@ == old(self).childs@.push(child),
            keeps_others(old(self).childs@, final(self).childs@, Set::empty()),
    {
        self.insert_child(child);
        proof {
            assert(self.child_names() =~= old(self).child_names().union(Set::empty()));
            assert(shapes(self.token_stream@) =~= shapes(old(self).token_stream@) + Seq::<
                TokenShape,
            >::empty());
        }
    }

    fn build_while_scope(&mut self, while_stmt: &WhileStmt)
        requires
            old(self).wf(),
        ensures
            grows(*old(self), *final(self), Set::empty(), Seq::empty()),
            children_after(Statement::WhileStatement(*while_stmt), old(self).childs@, final(self).childs@),
            keeps_others(old(self).childs@, final(self).childs@, Set::empty()),
        decreases while_stmt,
    {
        let mut while_scope = Scope::new(Some(&*self), ScopeType::While);
        assert(shapes(while_scope.token_stream@) =~= Seq::<TokenShape>::empty());
        while_scope.tokenize(&while_stmt.test);
        while_scope.explore_statement(&while_stmt.body);
        let ghost c = while_scope;
        assert(shapes(c.token_stream@) =~= linearize(*while_stmt.test) + stmt_stream(*while_stmt.body));
        self.push_unnamed(while_scope);
        assert(opened(c, ScopeType::While, linearize(*while_stmt.test) + stmt_stream(*while_stmt.body)));
    }

    fn build_for_scope(&mut self, for_stmt: &ForStmt)
        requires
            old(self).wf(),
        ensures
            grows(*old(self), *final(self), Set::empty(), Seq::empty()),
            children_after(Statement::ForStatement(*for_stmt), old(self).childs@, final(self).childs@),
            keeps_others(old(self).childs@, final(self).childs@, Set::empty()),
        decreases for_stmt,
    {
        let mut for_scope = Scope::new(Some(&*self), ScopeType::For);
        assert(shapes(for_scope.token_stream@) =~= Seq::<TokenShape>::empty());
        if let Some(init) = &for_stmt.init {
            for_scope.tokenize(init);
        }
        assert(shapes(for_scope.token_stream@) =~= opt_tokens(for_stmt.init));
        if let Some(test) = &for_stmt.test {
            for_scope.tokenize(test);
        }
        assert(shapes(for_scope.token_stream@) =~= opt_tokens(for_stmt.init) + opt_tokens(for_stmt.test));
        if let Some(update) = &for_stmt.update {
            for_scope.tokenize(update);
        }
        assert(shapes(for_scope.token_stream@) =~= opt_tokens(for_stmt.init) + opt_tokens(for_stmt.test)
            + opt_tokens(for_stmt.update));
        for_scope.explore_statement(&for_stmt.body);
        let ghost c = for_scope;
        self.push_unnamed(for_scope);
        assert(opened(
            c,
            ScopeType::For,
            opt_tokens(for_stmt.init) + opt_tokens(for_stmt.test) + opt_tokens(for_stmt.update) + stmt_stream(
                *for_stmt.body,
            ),
        ));
    }

    /// An `if` opens an `If` child holding the test and the consequent, and
    /// an `Else` child for the alternate when there is one.
    fn build_if_scope(&mut self, if_stmt: &IfStmt)
        requires
            old(self).wf(),
        ensures
            grows(*old(self), *final(self), Set::empty(), Seq::empty()),
            children_after(Statement::IfStatement(*if_stmt), old(self).childs@, final(self).childs@),
            keeps_others(old(self).childs@, final(self).childs@, Set::empty()),
        decreases if_stmt,
    {
        let mut if_scope = Scope::new(Some(&*self), ScopeType::If);
        assert(shapes(if_scope.token_stream@) =~= Seq::<TokenShape>::empty());
        if_scope.tokenize(&if_stmt.test);
        if_scope.explore_statement(&if_stmt.consequent);
        let ghost c = if_scope;
        assert(shapes(c.token_stream@) =~= linearize(*if_stmt.test) + stmt_stream(*if_stmt.consequent));
        self.push_unnamed(if_scope);
        if let Some(alt) = &if_stmt.alternate {
            let ghost mid = *self;
            let mut else_scope = Scope::new(Some(&*self), ScopeType::Else);
            assert(shapes(else_scope.token_stream@) =~= Seq::<TokenShape>::empty());
            else_scope.explore_statement(alt);
            let ghost d = else_scope;
            assert(shapes(d.token_stream@) =~= stmt_stream(**alt));
            self.push_unnamed(else_scope);
            proof {
                lemma_grows_trans(*old(self), mid, *self, Set::empty(), Seq::empty(), Set::empty(), Seq::empty());
                assert(Set::<Seq<char>>::empty().union(Set::empty()) =~= Set::empty());
                assert(Seq::<TokenShape>::empty() + Seq::empty() =~= Seq::empty());
                assert(self.childs@ == old(self).childs@.push(c).push(d));
                lemma_keeps_trans(old(self).childs@, mid.childs@, self.childs@, Set::empty(), Set::empty());
                assert(Set::<Seq<char>>::empty().union(Set::<Seq<char>>::empty()) =~= Set::<Seq<char>>::empty());
                assert(opened(d, ScopeType::Else, stmt_stream(**alt)));
            }
        }
        assert(opened(c, ScopeType::If, linearize(*if_stmt.test) + stmt_stream(*if_stmt.consequent)));
    }

    fn build_case_scope(&mut self, case: &CaseStmt)
        requires
            old(self).wf(),
        ensures
            grows(*old(self), *final(self), Set::empty(), Seq::empty()),
            children_after(Statement::SwitchCase(*case), old(self).childs@, final(self).childs@),
            keeps_others(old(self).childs@, final(self).childs@, Set::empty()),
        decreases case,
    {
        let mut case_scope = Scope::new(Some(&*self), ScopeType::Case);
        let ghost fresh = case_scope;
        assert(shapes(case_scope.token_stream@) =~= Seq::<TokenShape>::empty());
        if let Some(test) = &case.test {
            case_scope.tokenize(test);
        }
        assert(shapes(case_scope.token_stream@) =~= opt_tokens(case.test));
        let ghost mid = case_scope;
        case_scope.build(&case.consequent);
        let ghost c = case_scope;
        proof {
            assert(named_seq(fresh.childs@) =~= Seq::<Seq<char>>::empty());
            assert(mid.child_names() =~= Set::<Seq<char>>::empty());
            assert(c.child_names() =~= declared(case.consequent@));
        }
        self.push_unnamed(case_scope);
        assert(opened(c, ScopeType::Case, opt_tokens(case.test) + list_stream(case.consequent@)));
    }

    fn build_switch_scope(&mut self, switch: &SwitchStmt)
        requires
            old(self).wf(),
        ensures
            grows(*old(self), *final(self), Set::empty(), Seq::empty()),
            children_after(Statement::SwitchStatement(*switch), old(self).childs@, final(self).childs@),
            keeps_others(old(self).childs@, final(self).childs@, Set::empty()),
        decreases switch,
    {
        let mut switch_scope = Scope::new(Some(&*self), ScopeType::Switch);
        assert(shapes(switch_scope.token_stream@) =~= Seq::<TokenShape>::empty());
        switch_scope.tokenize(&switch.discriminant);
        let mut i: usize = 0;
        while i < switch.cases.len()
            invariant
                switch_scope.wf(),
                switch_scope.name is None,
                switch_scope.scope_type == ScopeType::Switch,
                shapes(switch_scope.token_stream@) == linearize(*switch.discriminant),
                switch_scope.childs@.len() == i,
                i <= switch.cases.len(),
            decreases switch.cases.len() - i,
        {
            proof {
                assert(decreases_to!(switch => switch.cases));
                assert(decreases_to!(switch.cases => switch.cases[i as int]));
            }
            let ghost before = shapes(switch_scope.token_stream@);
            switch_scope.build_case_scope(&switch.cases[i]);
            assert(shapes(switch_scope.token_stream@) =~= before);
            i = i + 1;
        }
        let ghost c = switch_scope;
        self.push_unnamed(switch_scope);
        assert(opened(c, ScopeType::Switch, linearize(*switch.discriminant)));
    }

    fn build_block_scope(&mut self, block: &BlockStmt)
        requires
            old(self).wf(),
        ensures
            grows(*old(self), *final(self), Set::empty(), Seq::empty()),
            children_after(Statement::BlockStatement(*block), old(self).childs@, final(self).childs@),
            keeps_others(old(self).childs@, final(self).childs@, Set::empty()),
        decreases block,
    {
        let mut block_scope = Scope::new(Some(&*self), ScopeType::Block);
        let ghost fresh = block_scope;
        block_scope.build(&block.body);
        let ghost c = block_scope;
        proof {
            assert(named_seq(fresh.childs@) =~= Seq::<Seq<char>>::empty());
            assert(fresh.child_names() =~= Set::<Seq<char>>::empty());
            assert(c.child_names() =~= declared(block.body@));
            assert(shapes(fresh.token_stream@) =~= Seq::<TokenShape>::empty());
            assert(shapes(c.token_stream@) =~= list_stream(block.body@));
        }
        self.push_unnamed(block_scope);
        assert(opened(c, ScopeType::Block, list_stream(block.body@)));
    }

    fn build_continue_scope(&mut self)
        requires
            old(self).wf(),
        ensures
            grows(*old(self), *final(self), Set::empty(), seq![TokenShape::Ctrl(ControlFlow::Continue)]),
            final(self).childs == old(self).childs,
    {
        push_token(&mut self.token_stream, Token::ControlFlow(ControlFlow::Continue));
        proof {
            assert(self.child_names() =~= old(self).child_names().union(Set::empty()));
            assert(shapes(old(self).token_stream@).push(TokenShape::Ctrl(ControlFlow::Continue))
                =~= shapes(old(self).token_stream@) + seq![TokenShape::Ctrl(ControlFlow::Continue)]);
        }
    }

    fn build_break_scope(&mut self)
        requires
            old(self).wf(),
        ensures
            grows(*old(self), *final(self), Set::empty(), seq![TokenShape::Ctrl(ControlFlow::Break)]),
            final(self).childs == old(self).childs,
    {
        push_token(&mut self.token_stream, Token::ControlFlow(ControlFlow::Break));
        proof {
            assert(self.child_names() =~= old(self).child_names().union(Set::empty()));
            assert(shapes(old(self).token_stream@).push(TokenShape::Ctrl(ControlFlow::Break))
                =~= shapes(old(self).token_stream@) + seq![TokenShape::Ctrl(ControlFlow::Break)]);
        }
    }

    fn build_return_scope(&mut self, return_stmt: &ReturnStmt)
        requires
            old(self).wf(),
        ensures
            grows(*old(self), *final(self), Set::empty(), Seq::empty()),
            children_after(Statement::ReturnStatement(*return_stmt), old(self).childs@, final(self).childs@),
            keeps_others(old(self).childs@, final(self).childs@, Set::empty()),
    {
        let mut return_scope = Scope::new(Some(&*self), ScopeType::Return);
        assert(shapes(return_scope.token_stream@) =~= Seq::<TokenShape>::empty());
        if let Some(argument) = &return_stmt.argument {
            return_scope.tokenize(argument);
        }
        let ghost c = return_scope;
        assert(shapes(c.token_stream@) =~= opt_tokens(return_stmt.argument));
        self.push_unnamed(return_scope);
        assert(opened(c, ScopeType::Return, opt_tokens(return_stmt.argument)));
    }
}

/// Scope tree completeness: once a statement list is built into a scope
/// that had no children, its named children are exactly the names the list
/// declares at its own level, one child per distinct name (a repeated name
/// collapses into one child).
pub proof fn lemma_scope_completeness(before: Scope, after: Scope, statements: Seq<Box<Statement>>)
    requires
        before.childs@.len() == 0,
        grows(before, after, declared(statements), list_stream(statements)),
    ensures
        after.child_names() == declared(statements),
        named_seq(after.childs@).len() == declared(statements).len(),
{
    assert(named_seq(before.childs@) =~= Seq::<Seq<char>>::empty());
    assert(before.child_names() =~= Set::<Seq<char>>::empty());
    assert(Set::<Seq<char>>::empty().union(declared(statements)) =~= declared(statements));
    named_seq(after.childs@).unique_seq_to_set();
}

/// Builds the scope tree of a whole program under a root scope.
#[derive(Debug)]
pub struct ScopeBuilder {
    pub global_scope: Scope,
}

impl ScopeBuilder {
    pub fn new() -> (r: ScopeBuilder)
        ensures
            r.global_scope.wf(),
            r.global_scope.name is None,
            r.global_scope.parents@.len() == 0,
            r.global_scope.childs@.len() == 0,
            r.global_scope.token_stream@.len() == 0,
            r.global_scope.scope_type == ScopeType::Root,
    {
        let global_scope = Scope::init_root(None);
        assert(global_scope.parents@.map_values(|s: String| s@).len() == 0);
        ScopeBuilder { global_scope }
    }

    /// Adds the program's declarations and tokens to the root scope.
    pub fn build(&mut self, program: &Vec<Box<Statement>>)
        requires
            old(self).global_scope.wf(),
        ensures
            grows(old(self).global_scope, final(self).global_scope, declared(program@), list_stream(program@)),
            last_writer_wins(old(self).global_scope.childs@, final(self).global_scope.childs@, program@),
    {
        self.global_scope.build(program);
    }
}

proof fn lemma_build_step(before: Seq<Scope>, mid: Seq<Scope>, after: Seq<Scope>, ss: Seq<Box<Statement>>, i: int)
    requires
        0 <= i < ss.len(),
        last_writer_wins(before, mid, ss.subrange(0, i)),
        stmt_writer_wins(mid, after, *ss[i]),
    ensures
        last_writer_wins(before, after, ss.subrange(0, i + 1)),
{
    let pre = ss.subrange(0, i);
    let next = ss.subrange(0, i + 1);
    let s = *ss[i];
    assert(next.subrange(0, i) =~= pre);
    assert(next[i] == ss[i]);
    assert(declared(next) == declared(pre).union(decl_names(s)));
    assert forall|n: Seq<char>| #[trigger] declared(next).contains(n) implies holds_decl(
        after,
        n,
        last_decl(next, n)->Some_0,
    ) by {
        lemma_decl_of_names(s, n);
        if decl_names(s).contains(n) {
            assert(last_decl(next, n) == decl_of(s, n));
        } else {
            assert(declared(pre).contains(n));
            assert(last_decl(next, n) == last_decl(pre, n));
            let c = choose|c: Scope| child_for(mid, n, c) && declared_child(c, last_decl(pre, n)->Some_0);
            assert(child_for(after, n, c));
        }
    }
    lemma_keeps_trans(before, mid, after, declared(pre), decl_names(s));
}

} // verus!
