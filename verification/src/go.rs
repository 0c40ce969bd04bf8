//! Helpers that write pieces of Go source code: function headers, calls, assignments and return
//! statements, each appended to a string.

use vstd::prelude::*;

pub mod size;

verus! {

/// Options for the Go code generator that can modify the way the code is generated.
pub struct Opts<'a> {
    /// Name of the package for the root schema. Eventual sub-modules will have their package name
    /// the schema's module name.
    pub package: &'a str,
}

impl<'a> Default for Opts<'a> {
    /// Options with an empty package name.
    fn default() -> (r: Self)
        ensures
            r.package@.len() == 0,
    {
        proof {
            reveal_strlit("");
        }
        Opts { package: "" }
    }
}

/// The Go source files generated from a schema: one per module, as a tree that follows the
/// module nesting. Their content still needs to be saved to the file system.
#[derive(Debug)]
pub struct Output<'a> {
    /// Name of this output as derived from the module name.
    pub name: &'a str,
    /// Final Go source code output of the module file.
    pub content: String,
    /// All modules that were defined as direct children of this module.
    pub modules: Vec<Output<'a>>,
}

/// The texts of a list of string slices.
pub open spec fn texts(items: Seq<&str>) -> Seq<Seq<char>> {
    Seq::new(items.len(), |i: int| items[i]@)
}

/// The texts joined, with `sep` between each two.
pub open spec fn join(items: Seq<Seq<char>>, sep: Seq<char>) -> Seq<char>
    decreases items.len(),
{
    if items.len() == 0 {
        Seq::empty()
    } else if items.len() == 1 {
        items[0]
    } else {
        join(items.drop_last(), sep) + sep + items.last()
    }
}

/// `n` tab characters.
pub open spec fn tabs(n: nat) -> Seq<char>
    decreases n,
{
    if n == 0 {
        Seq::empty()
    } else {
        tabs((n - 1) as nat) + seq!['\t']
    }
}

/// Append the items, with `sep` between each two.
fn write_joined(w: &mut String, items: &[&str], sep: &str)
    ensures
        final(w)@ == old(w)@ + join(texts(items@), sep@),
{
    let ghost start = w@;
    let mut i: usize = 0;
    while i < items.len()
        invariant
            i <= items@.len(),
            w@ == start + join(texts(items@).take(i as int), sep@),
        decreases items@.len() - i,
    {
        if i > 0 {
            w.append(sep);
        }
        w.append(items[i]);
        proof {
            let done = texts(items@).take(i + 1);
            assert(done.drop_last() =~= texts(items@).take(i as int));
            if i == 0 {
                assert(done.len() == 1);
            }
        }
        i = i + 1;
    }
    proof {
        assert(texts(items@).take(i as int) =~= texts(items@));
    }
}

/// Append `indent` tabs.
pub fn write_indent(w: &mut String, indent: usize)
    ensures
        final(w)@ == old(w)@ + tabs(indent as nat),
{
    let ghost start = w@;
    let mut i: usize = 0;
    while i < indent
        invariant
            i <= indent,
            w@ == start + tabs(i as nat),
        decreases indent - i,
    {
        w.append("\t");
        proof {
            reveal_strlit("\t");
            assert(w@ =~= start + tabs((i + 1) as nat));
        }
        i = i + 1;
    }
}

/// A Go function header being written: `func`, then the parts that each method appends.
pub struct GoFunc;

/// Start a Go function: append `func`.
pub fn func(w: &mut String) -> (r: GoFunc)
    ensures
        final(w)@ == old(w)@ + "func"@,
{
    w.append("func");
    GoFunc
}

impl GoFunc {
    /// Append the receiver: ` (name ty)`.
    pub fn receiver(self, w: &mut String, name: &str, ty: &str) -> (r: Self)
        ensures
            final(w)@ == old(w)@ + " ("@ + name@ + " "@ + ty@ + ")"@,
    {
        let ghost start = w@;
        w.append(" (");
        w.append(name);
        w.append(" ");
        w.append(ty);
        w.append(")");
        proof {
            assert(w@ =~= start + " ("@ + name@ + " "@ + ty@ + ")"@);
        }
        self
    }

    /// Append the function name: ` name`.
    pub fn named(self, w: &mut String, name: &str) -> (r: Self)
        ensures
            final(w)@ == old(w)@ + " "@ + name@,
    {
        w.append(" ");
        w.append(name);
        self
    }

    /// Append the parameters in parentheses, separated by `, `.
    pub fn params(self, w: &mut String, params: &[&str]) -> (r: Self)
        ensures
            final(w)@ == old(w)@ + "("@ + join(texts(params@), ", "@) + ")"@,
    {
        let ghost start = w@;
        w.append("(");
        write_joined(w, params, ", ");
        w.append(")");
        proof {
            assert(w@ =~= start + "("@ + join(texts(params@), ", "@) + ")"@);
        }
        self
    }

    /// Append an empty parameter list: `()`.
    pub fn no_params(self, w: &mut String) -> (r: Self)
        ensures
            final(w)@ == old(w)@ + "()"@,
    {
        w.append("()");
        self
    }

    /// Append the return types after a space, separated by `, `, and in parentheses when there is
    /// more than one.
    pub fn return_types(self, w: &mut String, types: &[&str]) -> (r: Self)
        ensures
            final(w)@ == old(w)@ + " "@ + (if types@.len() > 1 {
                "("@
            } else {
                Seq::empty()
            }) + join(texts(types@), ", "@) + (if types@.len() > 1 {
                ")"@
            } else {
                Seq::empty()
            }),
    {
        let ghost start = w@;
        w.append(" ");
        let multi = types.len() > 1;
        if multi {
            w.append("(");
        }
        let ghost opened = w@;
        write_joined(w, types, ", ");
        if multi {
            w.append(")");
        }
        proof {
            if multi {
                assert(w@ =~= start + " "@ + "("@ + join(texts(types@), ", "@) + ")"@);
            } else {
                assert(w@ =~= start + " "@ + Seq::<char>::empty() + join(texts(types@), ", "@)
                    + Seq::<char>::empty());
            }
        }
        self
    }

    /// Append the body in braces: ` {` and a line break, whatever `build` writes (called with
    /// indentation level 1), then `}`.
    pub fn body<F: FnOnce(usize, &mut String)>(self, w: &mut String, build: F)
        requires
            forall|m: &mut String| build.requires((1usize, m)),
        ensures
            exists|m: &mut String|
                (*m)@ == old(w)@ + " {\n"@ && build.ensures((1usize, m), ()) && final(w)@ == (
                *final(m))@ + "}"@,
    {
        w.append(" {\n");
        build(1, w);
        w.append("}");
    }
}

/// A Go function call being written: its name, then the parts that each method appends.
pub struct GoCall {
    /// Whether the call is to be written over several lines.
    pub multiline: bool,
    /// Whether the opening parenthesis of the parameters has been written.
    pub params_open: bool,
    /// How many parameters have been written.
    pub params_count: usize,
}

/// Start a Go function call: append the indentation and the name.
pub fn call(w: &mut String, indent: usize, name: &str) -> (r: GoCall)
    ensures
        final(w)@ == old(w)@ + tabs(indent as nat) + name@,
        r == (GoCall { multiline: false, params_open: false, params_count: 0 }),
{
    write_indent(w, indent);
    w.append(name);
    GoCall { multiline: false, params_open: false, params_count: 0 }
}

impl GoCall {
    /// The text that comes before a parameter: `(` for the first, `, ` between two.
    pub open spec fn param_prefix(&self) -> Seq<char> {
        (if !self.params_open {
            "("@
        } else {
            Seq::empty()
        }) + (if self.params_count > 0 {
            ", "@
        } else {
            Seq::empty()
        })
    }

    /// Append generic type arguments in brackets: `[types]`.
    pub fn generics(self, w: &mut String, types: &str) -> (r: Self)
        ensures
            final(w)@ == old(w)@ + "["@ + types@ + "]"@,
            r == self,
    {
        let ghost start = w@;
        w.append("[");
        w.append(types);
        w.append("]");
        proof {
            assert(w@ =~= start + "["@ + types@ + "]"@);
        }
        self
    }

    /// Mark the call as written over several lines.
    pub fn multiline(self) -> (r: Self)
        ensures
            r == (GoCall { multiline: true, ..self }),
    {
        GoCall { multiline: true, ..self }
    }

    /// Append a parameter, after `(` if it is the first and `, ` if one came before.
    pub fn param(self, w: &mut String, param: &str) -> (r: Self)
        requires
            self.params_count < usize::MAX,
        ensures
            final(w)@ == old(w)@ + self.param_prefix() + param@,
            r == (GoCall { params_open: true, params_count: (self.params_count + 1) as usize, ..self }),
    {
        let ghost start = w@;
        let mut call = self;
        if !call.params_open {
            w.append("(");
            call.params_open = true;
        }
        if call.params_count > 0 {
            w.append(", ");
        }
        w.append(param);
        call.params_count = call.params_count + 1;
        proof {
            assert(w@ =~= start + self.param_prefix() + param@);
        }
        call
    }

    /// Append a parameter that `build` writes, after `(` if it is the first and `, ` if one came
    /// before.
    pub fn param_with<F: FnOnce(&mut String)>(self, w: &mut String, build: F) -> (r: Self)
        requires
            self.params_count < usize::MAX,
            forall|m: &mut String| build.requires((m,)),
        ensures
            exists|m: &mut String|
                (*m)@ == old(w)@ + self.param_prefix() && build.ensures((m,), ()) && final(w)@ == (
                *final(m))@,
            r == (GoCall { params_open: true, params_count: (self.params_count + 1) as usize, ..self }),
    {
        let ghost start = w@;
        let mut call = self;
        if !call.params_open {
            w.append("(");
            call.params_open = true;
        }
        if call.params_count > 0 {
            w.append(", ");
        }
        proof {
            assert(w@ =~= start + self.param_prefix());
        }
        build(w);
        call.params_count = call.params_count + 1;
        call
    }

    /// Finish the call: append `)` and a line break.
    pub fn end(self, w: &mut String)
        ensures
            final(w)@ == old(w)@ + ")\n"@,
    {
        w.append(")\n");
    }
}

/// Append a check that a type implements an interface: `var _ interface = (*ty)(nil)` and an
/// empty line.
pub fn ensure_impl(w: &mut String, interface: &str, ty: &str)
    ensures
        final(w)@ == old(w)@ + "var _ "@ + interface@ + " = (*"@ + ty@ + ")(nil)\n\n"@,
{
    let ghost start = w@;
    w.append("var _ ");
    w.append(interface);
    w.append(" = (*");
    w.append(ty);
    w.append(")(nil)\n\n");
    proof {
        assert(w@ =~= start + "var _ "@ + interface@ + " = (*"@ + ty@ + ")(nil)\n\n"@);
    }
}

/// The operator of an assignment.
#[derive(Clone, Copy, Debug, PartialEq, Eq)]
pub enum Op {
    /// Declaration with initialization: `:=`.
    Init,
    /// Plain assignment: `=`.
    Assign,
    /// Addition assignment: `+=`.
    AddAssign,
}

impl Op {
    /// The operator's text.
    pub open spec fn spec_text(self) -> Seq<char> {
        match self {
            Op::Init => ":="@,
            Op::Assign => "="@,
            Op::AddAssign => "+="@,
        }
    }

    /// The operator's text.
    pub fn text(&self) -> (r: &'static str)
        ensures
            r@ == self.spec_text(),
    {
        match self {
            Op::Init => ":=",
            Op::Assign => "=",
            Op::AddAssign => "+=",
        }
    }
}

/// Append an assignment on a line of its own: the indentation, `variable op expr` and a line
/// break.
pub fn assign(w: &mut String, indent: usize, variable: &str, op: Op, expr: &str)
    ensures
        final(w)@ == old(w)@ + tabs(indent as nat) + variable@ + " "@ + op.spec_text() + " "@
            + expr@ + "\n"@,
{
    let ghost start = w@;
    write_indent(w, indent);
    w.append(variable);
    w.append(" ");
    w.append(op.text());
    w.append(" ");
    w.append(expr);
    w.append("\n");
    proof {
        assert(w@ =~= start + tabs(indent as nat) + variable@ + " "@ + op.spec_text() + " "@
            + expr@ + "\n"@);
    }
}

/// Append an assignment whose value `expr` writes (called with the indentation): the indentation,
/// then `variable op `, then the value.
pub fn assign_with<F: FnOnce(usize, &mut String)>(
    w: &mut String,
    indent: usize,
    variable: &str,
    op: Op,
    expr: F,
)
    requires
        forall|m: &mut String| expr.requires((indent, m)),
    ensures
        exists|m: &mut String|
            (*m)@ == old(w)@ + tabs(indent as nat) + variable@ + " "@ + op.spec_text() + " "@
                && expr.ensures((indent, m), ()) && final(w)@ == (*final(m))@,
{
    let ghost start = w@;
    write_indent(w, indent);
    w.append(variable);
    w.append(" ");
    w.append(op.text());
    w.append(" ");
    proof {
        assert(w@ =~= start + tabs(indent as nat) + variable@ + " "@ + op.spec_text() + " "@);
    }
    expr(indent, w);
}

/// Append a return statement on a line of its own: the indentation, `return ` and the values
/// separated by `, `, and a line break.
pub fn retval(w: &mut String, indent: usize, values: &[&str])
    ensures
        final(w)@ == old(w)@ + tabs(indent as nat) + "return "@ + join(texts(values@), ", "@)
            + "\n"@,
{
    let ghost start = w@;
    write_indent(w, indent);
    w.append("return ");
    write_joined(w, values, ", ");
    w.append("\n");
    proof {
        assert(w@ =~= start + tabs(indent as nat) + "return "@ + join(texts(values@), ", "@)
            + "\n"@);
    }
}

} // verus!
