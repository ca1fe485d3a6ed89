//! The interpreter: drains a program front to back, resolving inclusions
//! against the capability table into an environment of functions.
use vstd::prelude::*;
use crate::ast::{AST, ASTNode, Node};
use crate::libc::{LibC, strings_view};

verus! {

/// A function known to the interpreter, with where it resolves to.
#[derive(Debug)]
pub struct Function {
    pub name: String,
    pub location: String,
}

/// The interpreter's registry of functions; it only grows.
#[derive(Debug)]
pub struct Env {
    pub functions: Vec<Function>,
}

/// The model of an environment: (name, location) pairs in registration
/// order.
pub open spec fn env_view(functions: Seq<Function>) -> Seq<(Seq<char>, Seq<char>)> {
    functions.map_values(|f: Function| (f.name@, f.location@))
}

impl Env {
    pub fn new() -> (r: Self)
        ensures
            env_view(r.functions@) == Seq::<(Seq<char>, Seq<char>)>::empty(),
    {
        let r = Self { functions: Vec::new() };
        proof {
            assert(env_view(r.functions@) =~= Seq::empty());
        }
        r
    }

    pub fn push_function(&mut self, function: Function)
        ensures
            env_view(final(self).functions@) == env_view(old(self).functions@).push(
                (function.name@, function.location@),
            ),
    {
        self.functions.push(function);
        proof {
            assert(env_view(self.functions@) =~= env_view(old(self).functions@).push(
                (function.name@, function.location@),
            ));
        }
    }
}

/// What the interpreter reports about a node that it skipped.
#[derive(Debug)]
pub enum Diagnostic {
    /// A node of a kind that is not evaluated.
    Unsupported(ASTNode),
    /// An inclusion of a header that the capability table does not know.
    NotFound(String),
}

/// The model of a diagnostic.
pub ghost enum DiagnosticView {
    Unsupported(Node),
    NotFound(Seq<char>),
}

impl View for Diagnostic {
    type V = DiagnosticView;

    open spec fn view(&self) -> DiagnosticView {
        match self {
            Diagnostic::Unsupported(n) => DiagnosticView::Unsupported(n@),
            Diagnostic::NotFound(p) => DiagnosticView::NotFound(p@),
        }
    }
}

/// Where a function of the capability table resolves to.
pub open spec fn location_of(f: Seq<char>) -> Seq<char> {
    "libc/"@ + f
}

/// The environment entries that a recognised inclusion registers.
pub open spec fn entries_for(funcs: Seq<Seq<char>>) -> Seq<(Seq<char>, Seq<char>)> {
    funcs.map_values(|f: Seq<char>| (f, location_of(f)))
}

/// Evaluating one node: an inclusion of a known header registers the
/// exported functions; an inclusion of an unknown header, and any other
/// node, is reported and otherwise skipped.
pub open spec fn eval_step(headers: Seq<Seq<char>>, funcs: Seq<Seq<char>>, n: Node) -> (
    Seq<(Seq<char>, Seq<char>)>,
    Seq<DiagnosticView>,
) {
    match n {
        Node::Include(p) => if headers.contains(p) {
            (entries_for(funcs), Seq::empty())
        } else {
            (Seq::empty(), seq![DiagnosticView::NotFound(p)])
        },
        _ => (Seq::empty(), seq![DiagnosticView::Unsupported(n)]),
    }
}

/// Evaluating nodes front to back: the entries registered and the
/// diagnostics reported, each in order.
pub open spec fn eval_nodes(headers: Seq<Seq<char>>, funcs: Seq<Seq<char>>, nodes: Seq<Node>) -> (
    Seq<(Seq<char>, Seq<char>)>,
    Seq<DiagnosticView>,
)
    decreases nodes.len(),
{
    if nodes.len() == 0 {
        (Seq::empty(), Seq::empty())
    } else {
        let s = eval_step(headers, funcs, nodes[0]);
        let r = eval_nodes(headers, funcs, nodes.subrange(1, nodes.len() as int));
        (s.0 + r.0, s.1 + r.1)
    }
}

/// The interpreter: the program left to evaluate, the environment, and the
/// capability table.
pub struct Interpreter {
    ast: AST,
    env: Env,
    libc: LibC,
}

impl Interpreter {
    /// The nodes not yet evaluated.
    pub closed spec fn pending(&self) -> Seq<Node> {
        self.ast@
    }

    /// The environment's entries.
    pub closed spec fn entries(&self) -> Seq<(Seq<char>, Seq<char>)> {
        env_view(self.env.functions@)
    }

    /// The capability table's headers.
    pub closed spec fn headers(&self) -> Seq<Seq<char>> {
        self.libc.headers()
    }

    /// The functions that a recognised header exports.
    pub closed spec fn exports(&self) -> Seq<Seq<char>> {
        self.libc.exports()
    }

    /// An interpreter over `ast` with the standard capability table.
    pub fn new(ast: AST) -> (r: Self)
        ensures
            r.pending() == ast@,
            r.entries() == Seq::<(Seq<char>, Seq<char>)>::empty(),
            r.headers() == seq!["stdio.h"@],
            r.exports() == seq!["printf"@],
    {
        Self::with_libc(ast, LibC::new())
    }

    /// An interpreter over `ast` with the given capability table.
    pub fn with_libc(ast: AST, libc: LibC) -> (r: Self)
        ensures
            r.pending() == ast@,
            r.entries() == Seq::<(Seq<char>, Seq<char>)>::empty(),
            r.headers() == libc.headers(),
            r.exports() == libc.exports(),
    {
        Self { ast, env: Env::new(), libc }
    }

    /// The environment.
    pub fn env(&self) -> (r: &Env)
        ensures
            env_view(r.functions@) == self.entries(),
    {
        &self.env
    }

    /// Evaluates every pending node in order and returns the diagnostics
    /// reported on the way. Evaluation never stops early.
    pub fn eval(&mut self) -> (r: Vec<Diagnostic>)
        ensures
            final(self).pending() == Seq::<Node>::empty(),
            final(self).headers() == old(self).headers(),
            final(self).exports() == old(self).exports(),
            final(self).entries() == old(self).entries() + eval_nodes(
                old(self).headers(),
                old(self).exports(),
                old(self).pending(),
            ).0,
            r@.map_values(|d: Diagnostic| d@) == eval_nodes(
                old(self).headers(),
                old(self).exports(),
                old(self).pending(),
            ).1,
    {
        let ghost headers = self.headers();
        let ghost funcs = self.exports();
        let ghost goal = eval_nodes(headers, funcs, self.pending());
        let ghost entries0 = self.entries();
        let mut diags: Vec<Diagnostic> = Vec::new();
        loop
            invariant
                headers == self.headers(),
                funcs == self.exports(),
                headers == old(self).headers(),
                funcs == old(self).exports(),
                entries0 == old(self).entries(),
                goal == eval_nodes(headers, funcs, old(self).pending()),
                entries0 + goal.0 == self.entries() + eval_nodes(headers, funcs, self.pending()).0,
                goal.1 == diags@.map_values(|d: Diagnostic| d@) + eval_nodes(
                    headers,
                    funcs,
                    self.pending(),
                ).1,
            ensures
                headers == self.headers(),
                funcs == self.exports(),
                self.pending() == Seq::<Node>::empty(),
                entries0 + goal.0 == self.entries(),
                goal.1 == diags@.map_values(|d: Diagnostic| d@),
            decreases self.pending().len(),
        {
            let ghost nodes = self.pending();
            let node = self.ast.next();
            match node {
                None => {
                    proof {
                        assert(self.entries() + Seq::<(Seq<char>, Seq<char>)>::empty() =~= self.entries());
                        assert(diags@.map_values(|d: Diagnostic| d@) + Seq::<DiagnosticView>::empty()
                            =~= diags@.map_values(|d: Diagnostic| d@));
                    }
                    break;
                },
                Some(n) => {
                    let ghost e_before = self.entries();
                    let ghost d_before = diags@.map_values(|d: Diagnostic| d@);
                    let ghost step = eval_step(headers, funcs, n@);
                    let ghost rest = eval_nodes(headers, funcs, self.pending());
                    let d = self.eval_node_stmt(n);
                    match d {
                        Some(d) => {
                            diags.push(d);
                        },
                        None => {},
                    }
                    proof {
                        assert(diags@.map_values(|d: Diagnostic| d@) =~= d_before + step.1);
                        assert(e_before + (step.0 + rest.0) =~= self.entries() + rest.0);
                        assert(d_before + (step.1 + rest.1) =~= diags@.map_values(|d: Diagnostic| d@)
                            + rest.1);
                    }
                },
            }
        }
        diags
    }

    fn eval_node_stmt(&mut self, node: ASTNode) -> (r: Option<Diagnostic>)
        ensures
            final(self).ast == old(self).ast,
            final(self).libc == old(self).libc,
            final(self).entries() == old(self).entries() + eval_step(
                old(self).headers(),
                old(self).exports(),
                node@,
            ).0,
            eval_step(old(self).headers(), old(self).exports(), node@).1 == match r {
                Some(d) => seq![d@],
                None => Seq::<DiagnosticView>::empty(),
            },
    {
        match node {
            ASTNode::Include(filepath) => self.eval_node_include(filepath),
            _ => {
                proof {
                    assert(self.entries() + Seq::<(Seq<char>, Seq<char>)>::empty() =~= self.entries());
                }
                Some(Diagnostic::Unsupported(node))
            },
        }
    }

    fn eval_node_include(&mut self, filepath: String) -> (r: Option<Diagnostic>)
        ensures
            final(self).ast == old(self).ast,
            final(self).libc == old(self).libc,
            final(self).entries() == old(self).entries() + eval_step(
                old(self).headers(),
                old(self).exports(),
                Node::Include(filepath@),
            ).0,
            eval_step(old(self).headers(), old(self).exports(), Node::Include(filepath@)).1 == match r {
                Some(d) => seq![d@],
                None => Seq::<DiagnosticView>::empty(),
            },
    {
        let mut i: usize = 0;
        let mut found = false;
        while i < self.libc.filepaths.len()
            invariant
                i <= self.libc.filepaths@.len(),
                !found ==> forall|k: int| 0 <= k < i ==> self.headers()[k] != filepath@,
                found ==> self.headers().contains(filepath@),
            decreases self.libc.filepaths@.len() - i,
        {
            if self.libc.filepaths[i] == filepath {
                found = true;
                proof {
                    assert(self.headers()[i as int] == filepath@);
                }
            }
            i = i + 1;
        }
        if !found {
            proof {
                assert(!self.headers().contains(filepath@));
                assert(self.entries() + Seq::<(Seq<char>, Seq<char>)>::empty() =~= self.entries());
            }
            return Some(Diagnostic::NotFound(filepath));
        }
        let ghost entries0 = self.entries();
        let ghost funcs = self.exports();
        let mut j: usize = 0;
        while j < self.libc.stdio.funcnames.len()
            invariant
                self.ast == old(self).ast,
                self.libc == old(self).libc,
                funcs == self.exports(),
                j <= funcs.len(),
                entries0 == old(self).entries(),
                self.entries() == entries0 + entries_for(funcs.subrange(0, j as int)),
            decreases self.libc.stdio.funcnames@.len() - j,
        {
            let name = self.libc.stdio.funcnames[j].clone();
            let mut location = String::from_str("libc/");
            location.append(name.as_str());
            proof {
                assert(entries_for(funcs.subrange(0, j + 1)) =~= entries_for(funcs.subrange(0, j as int)).push(
                    (name@, location@),
                ));
            }
            self.env.push_function(Function { name, location });
            j = j + 1;
        }
        proof {
            assert(funcs.subrange(0, j as int) =~= funcs);
        }
        None
    }
}

} // verus!
