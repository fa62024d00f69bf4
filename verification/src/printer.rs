//! A printer of the syntax tree: one line per node and per part of a node,
//! indented two spaces per level.

use vstd::prelude::*;

use crate::ast::Ast;
use crate::machine::spec_value_text;
use crate::text::{owned, spec_decimal, usize_text};
use crate::value::{FloatOps, FunctionType, Value};
use crate::vm::value_text;

verus! {

/// The name under which the printer shows a kind of node.
pub open spec fn spec_node_name(ast: Ast) -> Seq<char> {
    match ast {
        Ast::Program { .. } => "Program"@,
        Ast::FunDecl { .. } => "FunDecl"@,
        Ast::LetDecl { .. } => "LetDecl"@,
        Ast::ExprStmt { .. } => "ExprStmt"@,
        Ast::Block { .. } => "Block"@,
        Ast::ReturnStmt { .. } => "ReturnStmt"@,
        Ast::Value { .. } => "Value"@,
        Ast::Variable { .. } => "Variable"@,
        Ast::Call(..) => "Call"@,
        Ast::Unary(..) => "Unary"@,
        Ast::Binary(..) => "Binary"@,
        Ast::TrueStmt => "True"@,
        Ast::FalseStmt => "False"@,
    }
}

/// The name under which the printer shows a kind of node.
pub fn node_name(ast: &Ast) -> (r: &'static str)
    ensures
        r@ == spec_node_name(*ast),
{
    match ast {
        Ast::Program { .. } => "Program",
        Ast::FunDecl { .. } => "FunDecl",
        Ast::LetDecl { .. } => "LetDecl",
        Ast::ExprStmt { .. } => "ExprStmt",
        Ast::Block { .. } => "Block",
        Ast::ReturnStmt { .. } => "ReturnStmt",
        Ast::Value { .. } => "Value",
        Ast::Variable { .. } => "Variable",
        Ast::Call(..) => "Call",
        Ast::Unary(..) => "Unary",
        Ast::Binary(..) => "Binary",
        Ast::TrueStmt => "True",
        Ast::FalseStmt => "False",
    }
}

/// The name under which the printer shows a kind of function.
pub open spec fn spec_fun_type_name(ty: FunctionType) -> Seq<char> {
    match ty {
        FunctionType::TopLevel => "TopLevel"@,
        FunctionType::NamedClosure => "NamedClosure"@,
        FunctionType::AnonClosure => "AnonClosure"@,
        FunctionType::Constructor => "Constructor"@,
        FunctionType::Method => "Method"@,
    }
}

/// The name under which the printer shows a kind of function.
pub fn fun_type_name(ty: FunctionType) -> (r: &'static str)
    ensures
        r@ == spec_fun_type_name(ty),
{
    match ty {
        FunctionType::TopLevel => "TopLevel",
        FunctionType::NamedClosure => "NamedClosure",
        FunctionType::AnonClosure => "AnonClosure",
        FunctionType::Constructor => "Constructor",
        FunctionType::Method => "Method",
    }
}

/// Two spaces for each level.
pub open spec fn spec_indent(level: nat) -> Seq<char>
    decreases level,
{
    if level == 0 {
        Seq::empty()
    } else {
        spec_indent((level - 1) as nat) + "  "@
    }
}

/// An indented line.
pub open spec fn spec_line(level: usize, text: Seq<char>) -> Seq<char> {
    spec_indent(level as nat) + text + "\n"@
}

/// The level below `level`, which stays at the largest level there is.
pub open spec fn spec_deeper(level: usize) -> usize {
    if level < usize::MAX {
        (level + 1) as usize
    } else {
        level
    }
}

/// The line that opens the printing of a node.
pub open spec fn header(ast: Ast, level: usize) -> Seq<char> {
    spec_indent(level as nat) + "(Ast Type: "@ + spec_node_name(ast) + "; Level: "@ + spec_decimal(
        level as nat,
    ) + ")\n"@
}

/// A list of nodes under a node: the statements of a program, a block or
/// a function (`which` 1), the parameters of a function (`which` 0), or the
/// arguments of a call.
pub open spec fn list_of(parent: Ast, which: int) -> Seq<Box<Ast>> {
    match parent {
        Ast::Program { listing } => listing@,
        Ast::Block { listing } => listing@,
        Ast::FunDecl { params, listing, .. } => if which == 0 {
            params@
        } else {
            listing@
        },
        Ast::Call(_, args) => args@,
        _ => Seq::empty(),
    }
}

/// The nodes of a list are smaller than the node that holds it.
pub proof fn lemma_list_smaller(parent: Ast, which: int, i: int)
    requires
        0 <= i < list_of(parent, which).len(),
    ensures
        decreases_to!(parent => list_of(parent, which)[i]),
{
    match parent {
        Ast::Program { listing } => {
            assert(decreases_to!(parent => listing));
            assert(decreases_to!(listing => listing@));
        },
        Ast::Block { listing } => {
            assert(decreases_to!(parent => listing));
            assert(decreases_to!(listing => listing@));
        },
        Ast::FunDecl { params, listing, .. } => {
            if which == 0 {
                assert(decreases_to!(parent => params));
                assert(decreases_to!(params => params@));
            } else {
                assert(decreases_to!(parent => listing));
                assert(decreases_to!(listing => listing@));
            }
        },
        Ast::Call(_, args) => {
            assert(decreases_to!(parent => args));
            assert(decreases_to!(args => args@));
        },
        _ => {},
    }
}

/// The tree holds no float literal, whose text the embedding program
/// chooses.
pub open spec fn no_float(node: Ast) -> bool
    decreases node, 1nat, 0nat,
{
    match node {
        Ast::Value { val } => !(val is Float),
        Ast::Program { .. } | Ast::Block { .. } | Ast::Call(_, _) => {
            &&& match node {
                Ast::Call(Some(r), _) => no_float(*r),
                _ => true,
            }
            &&& no_float_list(node, 1, list_of(node, 1).len())
        },
        Ast::FunDecl { .. } => no_float_list(node, 0, list_of(node, 0).len()) && no_float_list(
            node,
            1,
            list_of(node, 1).len(),
        ),
        Ast::LetDecl { expr, .. } => no_float(*expr),
        Ast::ExprStmt { expr } => no_float(*expr),
        Ast::ReturnStmt { expr: Some(e) } => no_float(*e),
        Ast::Unary(_, Some(e)) => no_float(*e),
        Ast::Binary(_, l, r) => (match l {
            Some(x) => no_float(*x),
            None => true,
        }) && (match r {
            Some(x) => no_float(*x),
            None => true,
        }),
        _ => true,
    }
}

/// The first `n` nodes of a list under `parent` hold no float literal.
pub open spec fn no_float_list(parent: Ast, which: int, n: nat) -> bool
    decreases parent, 0nat, n,
{
    if n == 0 || n > list_of(parent, which).len() {
        true
    } else {
        proof {
            lemma_list_smaller(parent, which, n - 1);
        }
        no_float_list(parent, which, (n - 1) as nat) && no_float(
            *list_of(parent, which)[n - 1],
        )
    }
}

/// What the printer writes for a node at a level: the header, then the
/// node's name, type, parameters, statements, operands, value, receiver
/// or arguments, one level down (an absent operand as `(none)`).
pub open spec fn spec_print(node: Ast, level: usize) -> Seq<char>
    decreases node, 1nat, 0nat,
{
    let l1 = spec_deeper(level);
    header(node, level) + match node {
        Ast::Program { .. } => "Listing:\n"@ + spec_block(node, 1, level),
        Ast::FunDecl { name, fun_ty, .. } => spec_line(l1, "Name: "@ + name@) + spec_line(
            l1,
            "Type: "@ + spec_fun_type_name(fun_ty),
        ) + spec_line(l1, "Params:"@) + spec_block(node, 0, level) + spec_line(l1, "Listing:"@)
            + spec_block(node, 1, level),
        Ast::LetDecl { name, expr } => spec_line(l1, "Name: "@ + name@) + spec_line(l1, "Expr:"@)
            + spec_print(*expr, spec_deeper(l1)),
        Ast::ExprStmt { expr } => spec_line(l1, "Expr:"@) + spec_line(l1, "{"@) + spec_print(
            *expr,
            l1,
        ) + spec_line(l1, "}"@),
        Ast::Block { .. } => spec_line(l1, "Listing:"@) + spec_block(node, 1, level),
        Ast::Binary(_, l, r) => spec_line(l1, "Left:"@) + (match l {
            Some(x) => spec_print(*x, l1),
            None => spec_line(l1, "(none)"@),
        }) + spec_line(l1, "Right:"@) + (match r {
            Some(x) => spec_print(*x, l1),
            None => spec_line(l1, "(none)"@),
        }),
        Ast::Value { val } => spec_line(l1, "Value: "@ + spec_value_text(val@, Seq::empty())),
        Ast::Variable { name, .. } => spec_line(l1, "Name: "@ + name@),
        Ast::Call(recv, _) => spec_line(l1, "Receiver:"@) + (match recv {
            Some(x) => spec_print(*x, l1),
            None => spec_line(l1, "(none)"@),
        }) + spec_line(l1, "Args:"@) + spec_line(l1, "{"@) + spec_args(
            node,
            list_of(node, 1).len(),
            l1,
        ) + spec_line(l1, "}"@),
        _ => Seq::empty(),
    }
}

/// A list under a node, one level down, between braces.
pub open spec fn spec_block(parent: Ast, which: int, level: usize) -> Seq<char>
    decreases parent, 0nat, list_of(parent, which).len() + 1,
{
    let l1 = spec_deeper(level);
    spec_line(l1, "{"@) + spec_items(parent, which, list_of(parent, which).len(), l1) + spec_line(
        l1,
        "}"@,
    )
}

/// The first `n` nodes of a list under `parent`, at a level.
pub open spec fn spec_items(parent: Ast, which: int, n: nat, level: usize) -> Seq<char>
    decreases parent, 0nat, n,
{
    if n == 0 || n > list_of(parent, which).len() {
        Seq::empty()
    } else {
        proof {
            lemma_list_smaller(parent, which, n - 1);
        }
        spec_items(parent, which, (n - 1) as nat, level) + spec_print(
            *list_of(parent, which)[n - 1],
            level,
        )
    }
}

/// The first `n` arguments of a call, a line with a comma after each but
/// the last of the call.
pub open spec fn spec_args(parent: Ast, n: nat, level: usize) -> Seq<char>
    decreases parent, 0nat, n,
{
    if n == 0 || n > list_of(parent, 1).len() {
        Seq::empty()
    } else {
        proof {
            lemma_list_smaller(parent, 1, n - 1);
        }
        spec_args(parent, (n - 1) as nat, level) + spec_print(*list_of(parent, 1)[n - 1], level) + (
        if n < list_of(parent, 1).len() {
            spec_line(level, ","@)
        } else {
            Seq::empty()
        })
    }
}

/// The level below `level`, which stays at the largest level there is.
fn deeper(level: usize) -> (r: usize)
    ensures
        r == spec_deeper(level),
{
    if level < usize::MAX {
        level + 1
    } else {
        level
    }
}

/// Appends the indentation of a level.
fn indent(out: &mut String, level: usize)
    ensures
        final(out)@ == old(out)@ + spec_indent(level as nat),
{
    let mut i: usize = 0;
    while i < level
        invariant
            i <= level,
            out@ == old(out)@ + spec_indent(i as nat),
        decreases level - i,
    {
        out.append("  ");
        proof {
            assert(spec_indent((i + 1) as nat) == spec_indent(i as nat) + "  "@);
        }
        i = i + 1;
    }
}

/// Appends an indented line.
fn line(out: &mut String, level: usize, text: &str)
    ensures
        final(out)@ == old(out)@ + spec_line(level, text@),
{
    indent(out, level);
    out.append(text);
    out.append("\n");
    assert(out@ =~= old(out)@ + spec_line(level, text@));
}

/// Prints a list under a node one level down, between braces.
fn print_list<F: FloatOps>(
    out: &mut String,
    list: &Vec<Box<Ast>>,
    level: usize,
    fl: &F,
    parent: Ghost<Ast>,
    which: Ghost<int>,
)
    requires
        list@ == list_of(parent@, which@),
        parent@ is Block || parent@ is Program || parent@ is FunDecl,
    ensures
        no_float_list(parent@, which@, list@.len()) ==> final(out)@ == old(out)@ + spec_block(
            parent@,
            which@,
            level,
        ),
    decreases parent@, 0nat, list@.len() + 1,
{
    let l1 = deeper(level);
    line(out, l1, "{");
    let ghost start = out@;
    let mut i: usize = 0;
    while i < list.len()
        invariant
            list@ == list_of(parent@, which@),
            i <= list@.len(),
            no_float_list(parent@, which@, i as nat) ==> out@ == start + spec_items(
                parent@,
                which@,
                i as nat,
                l1,
            ),
        decreases list@.len() - i,
    {
        proof {
            lemma_list_smaller(parent@, which@, i as int);
        }
        print_node(out, &list[i], l1, fl);
        proof {
            if no_float_list(parent@, which@, (i + 1) as nat) {
                assert(no_float_list(parent@, which@, i as nat));
                assert(out@ =~= start + spec_items(parent@, which@, (i + 1) as nat, l1));
            }
        }
        i = i + 1;
    }
    line(out, l1, "}");
    proof {
        if no_float_list(parent@, which@, list@.len()) {
            assert(out@ =~= old(out)@ + spec_block(parent@, which@, level));
        }
    }
}

/// Prints a node and what it holds (see `spec_print`); a float literal
/// is printed under the text that the embedding program gives it.
#[verifier::rlimit(50)]
pub fn print_node<F: FloatOps>(dst: &mut String, node: &Ast, level: usize, fl: &F) -> (r: PrinterState)
    ensures
        exists|rest: Seq<char>| final(dst)@ == old(dst)@ + header(*node, level) + rest,
        no_float(*node) ==> final(dst)@ == old(dst)@ + spec_print(*node, level),
        r == (if level == 0 {
            PrinterState::Done
        } else {
            PrinterState::NotDoneYet
        }),
    decreases *node, 1nat, 0nat,
{
    indent(dst, level);
    dst.append("(Ast Type: ");
    dst.append(node_name(node));
    dst.append("; Level: ");
    let lv = usize_text(level);
    dst.append(lv.as_str());
    dst.append(")\n");
    let ghost head = dst@;
    assert(head =~= old(dst)@ + header(*node, level));
    let mut body = String::new();
    let out = &mut body;
    let l1 = deeper(level);
    match node {
        Ast::Program { listing } => {
            out.append("Listing:\n");
            print_list(out, listing, level, fl, Ghost(*node), Ghost(1));
        },
        Ast::FunDecl { name, fun_ty, params, listing, .. } => {
            let mut t = owned("Name: ");
            t.append(name.as_str());
            line(out, l1, t.as_str());
            let mut t2 = owned("Type: ");
            t2.append(fun_type_name(*fun_ty));
            line(out, l1, t2.as_str());
            line(out, l1, "Params:");
            print_list(out, params, level, fl, Ghost(*node), Ghost(0));
            line(out, l1, "Listing:");
            print_list(out, listing, level, fl, Ghost(*node), Ghost(1));
        },
        Ast::LetDecl { name, expr } => {
            let mut t = owned("Name: ");
            t.append(name.as_str());
            line(out, l1, t.as_str());
            line(out, l1, "Expr:");
            print_node(out, expr, deeper(l1), fl);
        },
        Ast::ExprStmt { expr } => {
            line(out, l1, "Expr:");
            line(out, l1, "{");
            print_node(out, expr, l1, fl);
            line(out, l1, "}");
        },
        Ast::Block { listing } => {
            line(out, l1, "Listing:");
            print_list(out, listing, level, fl, Ghost(*node), Ghost(1));
        },
        Ast::Binary(_, left, right) => {
            line(out, l1, "Left:");
            match left {
                Some(l) => {
                    print_node(out, l, l1, fl);
                },
                None => line(out, l1, "(none)"),
            }
            line(out, l1, "Right:");
            match right {
                Some(r) => {
                    print_node(out, r, l1, fl);
                },
                None => line(out, l1, "(none)"),
            }
        },
        Ast::Value { val } => {
            let mut t = owned("Value: ");
            let v = value_text(val, fl);
            t.append(v.as_str());
            line(out, l1, t.as_str());
        },
        Ast::Variable { name, .. } => {
            let mut t = owned("Name: ");
            t.append(name.as_str());
            line(out, l1, t.as_str());
        },
        Ast::Call(recv, args) => {
            line(out, l1, "Receiver:");
            match recv {
                Some(r) => {
                    print_node(out, r, l1, fl);
                },
                None => line(out, l1, "(none)"),
            }
            line(out, l1, "Args:");
            line(out, l1, "{");
            let ghost start = out@;
            let mut i: usize = 0;
            while i < args.len()
                invariant
                    *node is Call,
                    args@ == list_of(*node, 1),
                    i <= args@.len(),
                    no_float_list(*node, 1, i as nat) ==> out@ == start + spec_args(
                        *node,
                        i as nat,
                        l1,
                    ),
                decreases args@.len() - i,
            {
                proof {
                    lemma_list_smaller(*node, 1, i as int);
                }
                print_node(out, &args[i], l1, fl);
                if i + 1 < args.len() {
                    line(out, l1, ",");
                }
                proof {
                    if no_float_list(*node, 1, (i + 1) as nat) {
                        assert(no_float_list(*node, 1, i as nat));
                        assert(out@ =~= start + spec_args(*node, (i + 1) as nat, l1));
                    }
                }
                i = i + 1;
            }
            line(out, l1, "}");
        },
        _ => {},
    }
    dst.append(body.as_str());
    assert(dst@ == old(dst)@ + header(*node, level) + body@);
    proof {
        if no_float(*node) {
            assert(dst@ =~= old(dst)@ + spec_print(*node, level));
        }
    }
    if level == 0 {
        PrinterState::Done
    } else {
        PrinterState::NotDoneYet
    }
}

/// Whether printing a node finished the whole tree: it did at the root.
#[derive(Debug, PartialEq, Eq, Structural)]
pub enum PrinterState {
    Done,
    NotDoneYet,
}

/// The printed tree under a root, which is at level 0.
pub fn print_tree<F: FloatOps>(root: &Ast, fl: &F) -> (r: String)
    ensures
        exists|rest: Seq<char>| r@ == header(*root, 0) + rest,
        no_float(*root) ==> r@ == spec_print(*root, 0),
{
    let mut out = String::new();
    print_node(&mut out, root, 0, fl);
    assert(Seq::<char>::empty() + header(*root, 0) =~= header(*root, 0));
    assert(Seq::<char>::empty() + spec_print(*root, 0) =~= spec_print(*root, 0));
    out
}

} // verus!
