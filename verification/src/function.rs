//! The definition of one function: the structs of its inputs and outputs
//! where entry points start it, its signature, and its body.
//!
//! A uniform variable that a function mentions becomes a parameter of it,
//! unless an earlier mention has already made it a parameter: of this
//! function or of a function before it in the module. Every signature ends
//! with one more parameter, which carries a value of the stage.

use crate::binding::{BindSource, BindTarget, Options};
use crate::entry::{
    find_stage, input_mode, input_struct_text, output_mode, output_struct_text, stage_keyword,
    stage_modes, stage_of, typed_global, write_stage_struct, write_typed_global,
};
use crate::error::Error;
use crate::ir::{ExecutionModel, Expression, Module, ModuleView, StorageClass};
use crate::join::{concat_all, Piece};
use crate::name::{display_name, Name, NameClass};
use crate::types::{type_spelling, typed_var, write_type_spelling, write_typed_var};
use vstd::prelude::*;
use vstd::string::*;

verus! {

/// Whether expression `j` of function `g` mentions the global variable at
/// position `v`.
pub open spec fn mentions(m: ModuleView, g: int, j: int, v: int) -> bool {
    m.functions[g].expressions[j] matches Expression::GlobalVariable(token) && token.id() == v
}

/// Whether the global variable at position `v` is mentioned before
/// expression `k` of function `f`: by an earlier expression of `f`, or by
/// any expression of an earlier function.
pub open spec fn mentioned_before(m: ModuleView, f: int, k: int, v: int) -> bool {
    exists|g: int, j: int|
        0 <= g <= f && 0 <= j < m.functions[g].expressions.len() && (g < f || j < k)
            && #[trigger] mentions(m, g, j, v)
}

/// Whether the global variable at position `v` is a uniform.
pub open spec fn is_uniform(m: ModuleView, v: int) -> bool {
    m.global_variables[v].class is Uniform
}

/// The parameter that expression `k` of function `f` adds to the signature:
/// the uniform variable it mentions, where no earlier mention has added it.
pub open spec fn uniform_parameter(m: ModuleView, f: int, k: int) -> Seq<char> {
    match m.functions[f].expressions[k] {
        Expression::GlobalVariable(token) => {
            if is_uniform(m, token.id() as int) && !mentioned_before(m, f, k, token.id() as int) {
                "\t"@ + typed_global(m, token.id() as int) + ",\n"@
            } else {
                Seq::empty()
            }
        },
        _ => Seq::empty(),
    }
}

/// The parameters that the expressions of function `f` add, by position of
/// the expression.
pub open spec fn uniform_pieces(m: ModuleView, f: int) -> spec_fn(int) -> Seq<char> {
    |k: int| uniform_parameter(m, f, k)
}

/// The uniform parameters of function `f`.
pub open spec fn uniform_parameters(m: ModuleView, f: int) -> Seq<char> {
    concat_all(m.functions[f].expressions.len(), uniform_pieces(m, f))
}

/// For each global variable, whether it is a uniform that is mentioned
/// before expression `k` of function `f`, and so a parameter already.
pub open spec fn marks(m: ModuleView, f: int, k: int) -> Seq<bool> {
    Seq::new(
        m.global_variables.len(),
        |v: int| is_uniform(m, v) && mentioned_before(m, f, k, v),
    )
}

/// Before the first function nothing is mentioned.
pub proof fn lemma_marks_start(m: ModuleView)
    ensures
        marks(m, 0, 0) == Seq::new(m.global_variables.len(), |v: int| false),
{
    assert(marks(m, 0, 0) =~= Seq::new(m.global_variables.len(), |v: int| false));
}

/// What is mentioned before the end of one function is what is mentioned
/// before the beginning of the next.
pub proof fn lemma_marks_next_function(m: ModuleView, f: int)
    requires
        0 <= f,
    ensures
        marks(m, f, m.functions[f].expressions.len() as int) == marks(m, f + 1, 0),
{
    let n = m.functions[f].expressions.len() as int;
    assert forall|v: int| mentioned_before(m, f, n, v) == mentioned_before(m, f + 1, 0, v) by {
        if mentioned_before(m, f, n, v) {
            let (g, j) = choose|g: int, j: int|
                0 <= g <= f && 0 <= j < m.functions[g].expressions.len() && (g < f || j < n)
                    && #[trigger] mentions(m, g, j, v);
            assert(0 <= g <= f + 1 && (g < f + 1 || j < 0) && mentions(m, g, j, v));
        }
        if mentioned_before(m, f + 1, 0, v) {
            let (g, j) = choose|g: int, j: int|
                0 <= g <= f + 1 && 0 <= j < m.functions[g].expressions.len() && (g < f + 1 || j
                    < 0) && #[trigger] mentions(m, g, j, v);
            assert(0 <= g <= f && (g < f || j < n) && mentions(m, g, j, v));
        }
    }
    assert(marks(m, f, n) =~= marks(m, f + 1, 0));
}

/// One expression further, one more variable is mentioned: the one that the
/// expression mentions, if it mentions one.
pub proof fn lemma_mentioned_step(m: ModuleView, f: int, k: int, v: int)
    requires
        0 <= f,
        0 <= k < m.functions[f].expressions.len(),
    ensures
        mentioned_before(m, f, k + 1, v) == (mentioned_before(m, f, k, v) || mentions(m, f, k, v)),
{
    if mentioned_before(m, f, k + 1, v) {
        let (g, j) = choose|g: int, j: int|
            0 <= g <= f && 0 <= j < m.functions[g].expressions.len() && (g < f || j < k + 1)
                && #[trigger] mentions(m, g, j, v);
        if g == f && j == k {
        } else {
            assert(0 <= g <= f && (g < f || j < k) && mentions(m, g, j, v));
        }
    }
    if mentioned_before(m, f, k, v) {
        let (g, j) = choose|g: int, j: int|
            0 <= g <= f && 0 <= j < m.functions[g].expressions.len() && (g < f || j < k)
                && #[trigger] mentions(m, g, j, v);
        assert(0 <= g <= f && (g < f || j < k + 1) && mentions(m, g, j, v));
    }
    if mentions(m, f, k, v) {
        assert(0 <= f <= f && (f < f || k < k + 1) && mentions(m, f, k, v));
    }
}

/// Appends the uniform parameters of the function at position `f` to `out`
/// and marks in `used` the variables that are parameters from now on.
pub(crate) fn write_uniforms(out: &mut String, module: &Module, f: usize, used: &mut Vec<bool>)
    requires
        module@.wf(),
        f < module@.functions.len(),
        old(used)@ == marks(module@, f as int, 0),
    ensures
        final(out)@ == old(out)@ + uniform_parameters(module@, f as int),
        final(used)@ == marks(module@, f as int + 1, 0),
{
    let ghost m = module@;
    let function = module.functions.get(f);
    assert(function@ == m.functions[f as int]);
    assert(m.function_wf(m.functions[f as int]));
    let ghost pieces = uniform_pieces(m, f as int);
    let ghost mut done = Seq::<char>::empty();
    assert(out@ =~= old(out)@ + done);
    let count = function.expressions.len();
    let mut k: usize = 0;
    while k < count
        invariant
            k <= count,
            count == function@.expressions.len(),
            m == module@,
            m.wf(),
            f < m.functions.len(),
            function@ == m.functions[f as int],
            m.function_wf(m.functions[f as int]),
            pieces == uniform_pieces(m, f as int),
            used@ == marks(m, f as int, k as int),
            done == concat_all(k as nat, pieces),
            out@ == old(out)@ + done,
        decreases count - k,
    {
        let ghost piece = uniform_parameter(m, f as int, k as int);
        let expression = function.expressions.get(k);
        assert(*expression == m.functions[f as int].expressions[k as int]);
        if let Expression::GlobalVariable(token) = *expression {
            assert(m.has_global(token));
            let variable = module.global_variables.get(token.index());
            assert(variable@ == m.global_variables[token.id() as int]);
            if let StorageClass::Uniform = variable.class {
                if !used[token.index()] {
                    used.set(token.index(), true);
                    out.append("\t");
                    write_typed_global(out, module, token);
                    out.append(",\n");
                }
            }
        }
        proof {
            assert(out@ =~= old(out)@ + (done + piece));
            done = done + piece;
            assert forall|v: int| 0 <= v < m.global_variables.len() implies used@[v] == marks(
                m,
                f as int,
                k + 1,
            )[v] by {
                lemma_mentioned_step(m, f as int, k as int, v);
            }
            assert(used@ =~= marks(m, f as int, k + 1));
        }
        k += 1;
    }
    proof {
        lemma_marks_next_function(m, f as int);
    }
}

/// The line of the parameter at position `j` of the function at position
/// `f`.
pub open spec fn parameter_line(m: ModuleView, f: int, j: int) -> Seq<char> {
    "\t"@ + typed_var(
        m.complex_types,
        m.functions[f].parameter_types[j],
        display_name(NameClass::Param, None, j as nat),
    ) + ",\n"@
}

/// The lines of the parameters of the function at position `f`, by position.
pub open spec fn parameter_pieces(m: ModuleView, f: int) -> spec_fn(int) -> Seq<char> {
    |j: int| parameter_line(m, f, j)
}

/// The beginning of the signature of a function that no entry point starts:
/// its return type and name, and its own parameters.
pub open spec fn plain_head(m: ModuleView, f: int) -> Seq<char> {
    typed_var(
        m.complex_types,
        m.functions[f].return_type,
        display_name(NameClass::Function, m.functions[f].name, f as nat),
    ) + "(\n"@ + concat_all(m.functions[f].parameter_types.len(), parameter_pieces(m, f))
}

/// The beginning of the signature of a function that entry points start:
/// the struct of its outputs as return type, its name, and the struct of its
/// inputs as first parameter.
pub open spec fn entry_head(m: ModuleView, f: int) -> Seq<char> {
    display_name(NameClass::Output, m.functions[f].name, f as nat) + " "@ + display_name(
        NameClass::Function,
        m.functions[f].name,
        f as nat,
    ) + "(\n"@ + "\t"@ + display_name(NameClass::Input, m.functions[f].name, f as nat)
        + " input [[stage_in]],\n"@
}

/// The last parameter of a signature, which carries a value of the stage.
pub open spec fn trailing_parameter(stage: Option<ExecutionModel>) -> Seq<char> {
    match stage {
        Some(ExecutionModel::Vertex) => "\tunsigned _dummy [[vertex_id]]\n"@,
        Some(ExecutionModel::Fragment) => "\tbool _dummy [[front_facing]]\n"@,
        Some(ExecutionModel::GLCompute) => "\tunsigned _dummy [[threads_per_grid]]\n"@,
        _ => "\tint _dummy\n"@,
    }
}

/// The type of what the function at position `f` returns: the struct of its
/// outputs where entry points start it, and its return type where none does.
pub open spec fn result_type(m: ModuleView, f: int, stage: Option<ExecutionModel>) -> Seq<char> {
    if stage is Some {
        display_name(NameClass::Output, m.functions[f].name, f as nat)
    } else {
        type_spelling(m.complex_types, m.functions[f].return_type)
    }
}

/// The end of the signature and the body of the function at position `f`:
/// a value of the type that the function returns is declared and returned.
pub open spec fn body_text(m: ModuleView, f: int, stage: Option<ExecutionModel>) -> Seq<char> {
    ") {\n"@ + "\t"@ + result_type(m, f, stage) + " output;\n"@ + "\treturn output;\n"@ + "}\n"@
}

/// What follows the structs and the stage keyword, or stands alone for a
/// function that no entry point starts: the signature and the body.
pub open spec fn definition_text(m: ModuleView, f: int, stage: Option<ExecutionModel>) -> Seq<
    char,
> {
    (if stage is Some {
        entry_head(m, f)
    } else {
        plain_head(m, f)
    }) + uniform_parameters(m, f) + trailing_parameter(stage) + body_text(m, f, stage)
}

/// The text of the function at position `f`.
///
/// Where no entry point starts the function, this is its definition alone.
/// Where entry points start it, they must agree on a stage, and the stage
/// must have a keyword; the text is then the struct of the inputs, the struct
/// of the outputs, the keyword and the definition. The first thing that fails
/// decides the failure: the disagreement of the entry points, the stage
/// without keyword, an input, an output.
pub open spec fn function_text(m: ModuleView, map: Map<BindSource, BindTarget>, f: int) -> Piece {
    match stage_of(m, f as nat) {
        Err(e) => Err(e),
        Ok(None) => Ok(definition_text(m, f, None)),
        Ok(Some(em)) => match stage_keyword(em) {
            None => Err(Error::UnsupportedExecutionModel(em)),
            Some(keyword) => match input_struct_text(m, map, f as nat, input_mode(em)) {
                Err(e) => Err(e),
                Ok(inputs) => match output_struct_text(m, map, f as nat, output_mode(em)) {
                    Err(e) => Err(e),
                    Ok(outputs) => Ok(
                        inputs + outputs + keyword + " "@ + definition_text(m, f, Some(em)),
                    ),
                },
            },
        },
    }
}

/// Appends the beginning of the signature of a function that no entry point
/// starts.
fn write_plain_head(out: &mut String, module: &Module, f: usize)
    requires
        module@.wf(),
        f < module@.functions.len(),
    ensures
        final(out)@ == old(out)@ + plain_head(module@, f as int),
{
    let ghost m = module@;
    let function = module.functions.get(f);
    assert(function@ == m.functions[f as int]);
    assert(m.function_wf(m.functions[f as int]));
    let name = Name::or_index(&function.name, NameClass::Function, f);
    write_typed_var(out, &module.complex_types, function.return_type, &name, false);
    out.append("(\n");
    let ghost head = typed_var(m.complex_types, function@.return_type, name.text()) + "(\n"@;
    assert(out@ =~= old(out)@ + head);
    let ghost pieces = parameter_pieces(m, f as int);
    let ghost mut done = Seq::<char>::empty();
    assert(out@ =~= old(out)@ + head + done);
    let mut j: usize = 0;
    while j < function.parameter_types.len()
        invariant
            j <= function.parameter_types.len(),
            m == module@,
            m.wf(),
            f < m.functions.len(),
            function@ == m.functions[f as int],
            m.function_wf(m.functions[f as int]),
            pieces == parameter_pieces(m, f as int),
            done == concat_all(j as nat, pieces),
            out@ == old(out)@ + head + done,
        decreases function.parameter_types.len() - j,
    {
        let ty = function.parameter_types[j];
        assert(ty == m.functions[f as int].parameter_types[j as int]);
        assert(m.complex_types.has_type(m.functions[f as int].parameter_types[j as int]));
        let ghost before = out@;
        out.append("\t");
        let name = Name::from_index(NameClass::Param, j);
        write_typed_var(out, &module.complex_types, ty, &name, false);
        out.append(",\n");
        proof {
            let piece = parameter_line(m, f as int, j as int);
            assert(out@ =~= before + piece);
            assert(out@ =~= old(out)@ + head + (done + piece));
            done = done + piece;
        }
        j += 1;
    }
    assert(out@ =~= old(out)@ + (head + done));
}

/// Appends the beginning of the signature of a function that entry points
/// start.
fn write_entry_head(out: &mut String, module: &Module, f: usize)
    requires
        f < module@.functions.len(),
    ensures
        final(out)@ == old(out)@ + entry_head(module@, f as int),
{
    let ghost m = module@;
    let function = module.functions.get(f);
    assert(function@ == m.functions[f as int]);
    let ghost mut done = Seq::<char>::empty();
    let output = Name::or_index(&function.name, NameClass::Output, f);
    output.write_to(out);
    proof {
        done = output.text();
    }
    out.append(" ");
    proof {
        assert(out@ =~= old(out)@ + (done + " "@));
        done = done + " "@;
    }
    let name = Name::or_index(&function.name, NameClass::Function, f);
    name.write_to(out);
    proof {
        assert(out@ =~= old(out)@ + (done + name.text()));
        done = done + name.text();
    }
    out.append("(\n");
    proof {
        assert(out@ =~= old(out)@ + (done + "(\n"@));
        done = done + "(\n"@;
    }
    out.append("\t");
    proof {
        assert(out@ =~= old(out)@ + (done + "\t"@));
        done = done + "\t"@;
    }
    let input = Name::or_index(&function.name, NameClass::Input, f);
    input.write_to(out);
    proof {
        assert(out@ =~= old(out)@ + (done + input.text()));
        done = done + input.text();
    }
    out.append(" input [[stage_in]],\n");
    proof {
        assert(out@ =~= old(out)@ + (done + " input [[stage_in]],\n"@));
        done = done + " input [[stage_in]],\n"@;
    }
}

/// Appends the last parameter of a signature.
fn write_trailing_parameter(out: &mut String, stage: Option<ExecutionModel>)
    ensures
        final(out)@ == old(out)@ + trailing_parameter(stage),
{
    match stage {
        Some(ExecutionModel::Vertex) => {
            out.append("\tunsigned _dummy [[vertex_id]]\n");
        },
        Some(ExecutionModel::Fragment) => {
            out.append("\tbool _dummy [[front_facing]]\n");
        },
        Some(ExecutionModel::GLCompute) => {
            out.append("\tunsigned _dummy [[threads_per_grid]]\n");
        },
        _ => {
            out.append("\tint _dummy\n");
        },
    }
}

/// Appends the end of the signature and the body of the function at
/// position `f`.
fn write_body(out: &mut String, module: &Module, f: usize, stage: Option<ExecutionModel>)
    requires
        module@.wf(),
        f < module@.functions.len(),
    ensures
        final(out)@ == old(out)@ + body_text(module@, f as int, stage),
{
    let ghost m = module@;
    let function = module.functions.get(f);
    assert(function@ == m.functions[f as int]);
    assert(m.function_wf(m.functions[f as int]));
    let ghost mut done = Seq::<char>::empty();
    out.append(") {\n");
    proof {
        done = ") {\n"@;
    }
    out.append("\t");
    proof {
        assert(out@ =~= old(out)@ + (done + "\t"@));
        done = done + "\t"@;
    }
    if stage.is_some() {
        Name::or_index(&function.name, NameClass::Output, f).write_to(out);
    } else {
        write_type_spelling(out, &module.complex_types, function.return_type);
    }
    proof {
        assert(out@ =~= old(out)@ + (done + result_type(m, f as int, stage)));
        done = done + result_type(m, f as int, stage);
    }
    out.append(" output;\n");
    proof {
        assert(out@ =~= old(out)@ + (done + " output;\n"@));
        done = done + " output;\n"@;
    }
    out.append("\treturn output;\n");
    proof {
        assert(out@ =~= old(out)@ + (done + "\treturn output;\n"@));
        done = done + "\treturn output;\n"@;
    }
    out.append("}\n");
    proof {
        assert(out@ =~= old(out)@ + (done + "}\n"@));
        done = done + "}\n"@;
    }
}

/// Appends the signature and the body of the function at position `f`.
fn write_definition(
    out: &mut String,
    module: &Module,
    f: usize,
    stage: Option<ExecutionModel>,
    used: &mut Vec<bool>,
)
    requires
        module@.wf(),
        f < module@.functions.len(),
        old(used)@ == marks(module@, f as int, 0),
    ensures
        final(out)@ == old(out)@ + definition_text(module@, f as int, stage),
        final(used)@ == marks(module@, f as int + 1, 0),
{
    let ghost m = module@;
    let ghost mut done = Seq::<char>::empty();
    if stage.is_some() {
        write_entry_head(out, module, f);
        proof {
            done = entry_head(m, f as int);
        }
    } else {
        write_plain_head(out, module, f);
        proof {
            done = plain_head(m, f as int);
        }
    }
    write_uniforms(out, module, f, used);
    proof {
        assert(out@ =~= old(out)@ + (done + uniform_parameters(m, f as int)));
        done = done + uniform_parameters(m, f as int);
    }
    write_trailing_parameter(out, stage);
    proof {
        assert(out@ =~= old(out)@ + (done + trailing_parameter(stage)));
        done = done + trailing_parameter(stage);
    }
    write_body(out, module, f, stage);
    proof {
        assert(out@ =~= old(out)@ + (done + body_text(m, f as int, stage)));
        done = done + body_text(m, f as int, stage);
    }
}

/// Appends the text of the function at position `f` to `out`, or fails as
/// [`function_text`] says. On success the variables that became parameters
/// are marked in `used`. Where it fails, `out` is left with an unfinished
/// function.
pub(crate) fn write_function(
    out: &mut String,
    module: &Module,
    options: &Options,
    f: usize,
    used: &mut Vec<bool>,
) -> (done: Result<(), Error>)
    requires
        module@.wf(),
        f < module@.functions.len(),
        old(used)@ == marks(module@, f as int, 0),
    ensures
        match function_text(module@, options.binding_map@, f as int) {
            Ok(text) => done is Ok && final(out)@ == old(out)@ + text && final(used)@ == marks(
                module@,
                f as int + 1,
                0,
            ),
            Err(e) => done == Err::<(), Error>(e),
        },
{
    let ghost m = module@;
    let ghost map = options.binding_map@;
    let stage = match find_stage(module, f) {
        Ok(stage) => stage,
        Err(e) => {
            return Err(e);
        },
    };
    let ghost mut written = Seq::<char>::empty();
    assert(out@ =~= old(out)@ + written);
    if let Some(em) = stage {
        let (keyword, inputs, outputs) = match stage_modes(em) {
            Ok(modes) => modes,
            Err(e) => {
                return Err(e);
            },
        };
        match write_stage_struct(out, module, options, f, false, inputs) {
            Ok(()) => {},
            Err(e) => {
                return Err(e);
            },
        }
        proof {
            written = input_struct_text(m, map, f as nat, inputs).unwrap();
        }
        match write_stage_struct(out, module, options, f, true, outputs) {
            Ok(()) => {},
            Err(e) => {
                return Err(e);
            },
        }
        proof {
            let piece = output_struct_text(m, map, f as nat, outputs).unwrap();
            assert(out@ =~= old(out)@ + (written + piece));
            written = written + piece;
        }
        out.append(keyword);
        proof {
            assert(out@ =~= old(out)@ + (written + keyword@));
            written = written + keyword@;
        }
        out.append(" ");
        proof {
            assert(out@ =~= old(out)@ + (written + " "@));
            written = written + " "@;
        }
    }
    write_definition(out, module, f, stage, used);
    proof {
        let piece = definition_text(m, f as int, stage);
        assert(out@ =~= old(out)@ + (written + piece));
        if stage is None {
            assert(written + piece =~= piece);
        }
    }
    Ok(())
}

} // verus!
