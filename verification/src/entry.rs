//! The input and output structs of a function that entry points start.
//!
//! A function may be started by several entry points. They must agree on the
//! stage. The variables that the function receives are those that any of its
//! entry points declares as inputs, each once, in the order in which they are
//! first declared; likewise for the variables it returns. An output variable
//! that points to a struct is not written itself: the members of the struct
//! take its place. Whatever is written into one of the two structs must have
//! a binding.

use crate::arena::Token;
use crate::binding::{resolve, BindSource, BindTarget, LocationMode, Options};
use crate::error::Error;
use crate::ir::{
    ExecutionModel, GlobalVariable, Module, ModuleView, StorageClass, StructDeclaration, Type,
};
use crate::join::{join_all, lemma_join_all_stays_failed, Piece};
use crate::name::{display_name, Name, NameClass};
use crate::types::{
    attribute_text, declaration_line, typed_var, write_attribute, write_typed_var,
};
use vstd::prelude::*;
use vstd::string::*;

verus! {

/// Whether the entry point at position `k` starts the function at position
/// `f`.
pub open spec fn targets(m: ModuleView, k: int, f: nat) -> bool {
    m.entry_points[k].function.id() == f
}

/// Whether some entry point starts the function at position `f`.
pub open spec fn is_entry(m: ModuleView, f: nat) -> bool {
    exists|k: int| 0 <= k < m.entry_points.len() && #[trigger] targets(m, k, f)
}

/// Whether two entry points of different stages start the function at
/// position `f`.
pub open spec fn has_mixed_models(m: ModuleView, f: nat) -> bool {
    exists|j: int, k: int|
        0 <= j < m.entry_points.len() && 0 <= k < m.entry_points.len() && #[trigger] targets(m, j, f)
            && #[trigger] targets(m, k, f) && m.entry_points[j].exec_model
            != m.entry_points[k].exec_model
}

/// An entry point that starts the function at position `f`.
pub open spec fn some_entry(m: ModuleView, f: nat) -> int {
    choose|k: int| 0 <= k < m.entry_points.len() && #[trigger] targets(m, k, f)
}

/// The stage of the function at position `f`: none where no entry point
/// starts it, the stage of its entry points where they agree, and a failure
/// where they do not.
pub open spec fn stage_of(m: ModuleView, f: nat) -> Result<Option<ExecutionModel>, Error> {
    if !is_entry(m, f) {
        Ok(None)
    } else if has_mixed_models(m, f) {
        Err(Error::MixedExecutionModels(Token::at(f as usize)))
    } else {
        Ok(Some(m.entry_points[some_entry(m, f)].exec_model))
    }
}

/// Finds the stage of the function at position `f`.
pub fn find_stage(module: &Module, f: usize) -> (stage: Result<Option<ExecutionModel>, Error>)
    ensures
        stage == stage_of(module@, f as nat),
{
    let ghost m = module@;
    let mut found: Option<ExecutionModel> = None;
    let mut k: usize = 0;
    while k < module.entry_points.len()
        invariant
            k <= module.entry_points.len(),
            m == module@,
            found is None ==> forall|j: int| 0 <= j < k ==> !#[trigger] targets(m, j, f as nat),
            found matches Some(em) ==> exists|j: int|
                0 <= j < k && #[trigger] targets(m, j, f as nat) && m.entry_points[j].exec_model
                    == em,
            found matches Some(em) ==> forall|j: int|
                0 <= j < k && #[trigger] targets(m, j, f as nat) ==> m.entry_points[j].exec_model
                    == em,
        decreases module.entry_points.len() - k,
    {
        let entry = &module.entry_points[k];
        assert(entry@ == m.entry_points[k as int]);
        if entry.function.index() == f {
            assert(targets(m, k as int, f as nat));
            match found {
                Some(em) => {
                    if em != entry.exec_model {
                        proof {
                            let j = choose|j: int|
                                0 <= j < k && #[trigger] targets(m, j, f as nat)
                                    && m.entry_points[j].exec_model == em;
                            assert(targets(m, j, f as nat) && targets(m, k as int, f as nat));
                        }
                        return Err(Error::MixedExecutionModels(Token::new(f)));
                    }
                },
                None => {
                    found = Some(entry.exec_model);
                },
            }
        }
        k += 1;
    }
    proof {
        if let Some(em) = found {
            let j = choose|j: int|
                0 <= j < k && #[trigger] targets(m, j, f as nat) && m.entry_points[j].exec_model
                    == em;
            assert(targets(m, j, f as nat));
            assert(is_entry(m, f as nat));
            let chosen = some_entry(m, f as nat);
            assert(targets(m, chosen, f as nat));
        }
    }
    Ok(found)
}

/// The keyword of a stage, where it has one.
pub open spec fn stage_keyword(em: ExecutionModel) -> Option<Seq<char>> {
    match em {
        ExecutionModel::Vertex => Some("vertex"@),
        ExecutionModel::Fragment => Some("fragment"@),
        ExecutionModel::GLCompute => Some("compute"@),
        ExecutionModel::Other(_) => None,
    }
}

/// How the locations of the inputs of a stage are written.
pub open spec fn input_mode(em: ExecutionModel) -> LocationMode {
    match em {
        ExecutionModel::Vertex => LocationMode::VertexInput,
        _ => LocationMode::Intermediate,
    }
}

/// How the locations of the outputs of a stage are written.
pub open spec fn output_mode(em: ExecutionModel) -> LocationMode {
    match em {
        ExecutionModel::Fragment => LocationMode::FragmentOutput,
        _ => LocationMode::Intermediate,
    }
}

/// The keyword of stage `em` with the ways in which the locations of its
/// inputs and of its outputs are written, or a failure where the stage has no
/// keyword.
pub fn stage_modes(em: ExecutionModel) -> (modes: Result<
    (&'static str, LocationMode, LocationMode),
    Error,
>)
    ensures
        match stage_keyword(em) {
            Some(keyword) => modes matches Ok((word, input, output)) && word@ == keyword && input
                == input_mode(em) && output == output_mode(em),
            None => modes == Err::<(&'static str, LocationMode, LocationMode), Error>(
                Error::UnsupportedExecutionModel(em),
            ),
        },
{
    match em {
        ExecutionModel::Vertex => Ok(
            ("vertex", LocationMode::VertexInput, LocationMode::Intermediate),
        ),
        ExecutionModel::Fragment => Ok(
            ("fragment", LocationMode::Intermediate, LocationMode::FragmentOutput),
        ),
        ExecutionModel::GLCompute => Ok(
            ("compute", LocationMode::Intermediate, LocationMode::Intermediate),
        ),
        ExecutionModel::Other(_) => Err(Error::UnsupportedExecutionModel(em)),
    }
}

/// The variables that the entry point at position `k` declares: its outputs
/// or its inputs.
pub open spec fn variables_of(m: ModuleView, k: int, outputs: bool) -> Seq<Token<GlobalVariable>> {
    if outputs {
        m.entry_points[k].outputs
    } else {
        m.entry_points[k].inputs
    }
}

/// All that the first `k` entry points declare for the function at position
/// `f`, one declaration after the other.
pub open spec fn declared(m: ModuleView, f: nat, outputs: bool, k: nat) -> Seq<
    Token<GlobalVariable>,
>
    decreases k,
{
    if k == 0 {
        Seq::empty()
    } else {
        let before = declared(m, f, outputs, (k - 1) as nat);
        if targets(m, k - 1, f) {
            before + variables_of(m, k - 1, outputs)
        } else {
            before
        }
    }
}

/// The members of `s`, each once, in the order in which they first occur.
pub open spec fn distinct(s: Seq<Token<GlobalVariable>>) -> Seq<Token<GlobalVariable>>
    decreases s.len(),
{
    if s.len() == 0 {
        s
    } else {
        let before = distinct(s.drop_last());
        if before.contains(s.last()) {
            before
        } else {
            before.push(s.last())
        }
    }
}

/// The input or output variables of the function at position `f`: what its
/// entry points declare, each variable once, in the order of first
/// declaration.
pub open spec fn stage_variables(m: ModuleView, f: nat, outputs: bool) -> Seq<
    Token<GlobalVariable>,
> {
    distinct(declared(m, f, outputs, m.entry_points.len()))
}

/// Whether `token` is among `tokens`.
fn contains_token(tokens: &Vec<Token<GlobalVariable>>, token: Token<GlobalVariable>) -> (found:
    bool)
    ensures
        found == tokens@.contains(token),
{
    let mut i: usize = 0;
    while i < tokens.len()
        invariant
            i <= tokens.len(),
            forall|j: int| 0 <= j < i ==> tokens@[j] != token,
        decreases tokens.len() - i,
    {
        if tokens[i].index() == token.index() {
            assert(tokens@[i as int] == token);
            return true;
        }
        i += 1;
    }
    false
}

/// Gathers the input or output variables of the function at position `f`.
pub fn gather_variables(module: &Module, f: usize, outputs: bool) -> (variables: Vec<
    Token<GlobalVariable>,
>)
    ensures
        variables@ == stage_variables(module@, f as nat, outputs),
{
    let ghost m = module@;
    let mut variables: Vec<Token<GlobalVariable>> = Vec::new();
    let mut k: usize = 0;
    while k < module.entry_points.len()
        invariant
            k <= module.entry_points.len(),
            m == module@,
            variables@ == distinct(declared(m, f as nat, outputs, k as nat)),
        decreases module.entry_points.len() - k,
    {
        let entry = &module.entry_points[k];
        assert(entry@ == m.entry_points[k as int]);
        if entry.function.index() == f {
            let list = if outputs {
                &entry.outputs
            } else {
                &entry.inputs
            };
            let ghost before = declared(m, f as nat, outputs, k as nat);
            assert(list@ == variables_of(m, k as int, outputs));
            let mut j: usize = 0;
            assert(before + list@.take(0) =~= before);
            while j < list.len()
                invariant
                    j <= list.len(),
                    variables@ == distinct(before + list@.take(j as int)),
                decreases list.len() - j,
            {
                let token = list[j];
                proof {
                    let longer = before + list@.take(j + 1);
                    assert(longer.drop_last() =~= before + list@.take(j as int));
                    assert(longer.last() == token);
                }
                if !contains_token(&variables, token) {
                    variables.push(token);
                }
                j += 1;
            }
            assert(list@.take(list.len() as int) =~= list@);
        }
        k += 1;
    }
    variables
}

/// The type under which the global variable at position `v` is declared in
/// a struct of inputs or outputs, or as a parameter: what it points to where
/// it is a pointer to an input or an output, and its own type otherwise.
pub open spec fn global_type(m: ModuleView, v: int) -> Type {
    let variable = m.global_variables[v];
    match variable.ty {
        Type::Pointer(token) => {
            let decl = m.complex_types.pointers[token.id() as int];
            match decl.class {
                StorageClass::Input | StorageClass::Output => decl.base,
                _ => variable.ty,
            }
        },
        _ => variable.ty,
    }
}

/// The declaration of the global variable at position `v`: its type as
/// [`global_type`] gives it, and its name.
pub open spec fn typed_global(m: ModuleView, v: int) -> Seq<char> {
    typed_var(
        m.complex_types,
        global_type(m, v),
        display_name(NameClass::Global, m.global_variables[v].name, v as nat),
    )
}

/// Appends the declaration of the global variable `token` to `out`.
pub fn write_typed_global(out: &mut String, module: &Module, token: Token<GlobalVariable>)
    requires
        module@.wf(),
        module@.has_global(token),
    ensures
        final(out)@ == old(out)@ + typed_global(module@, token.id() as int),
{
    let ghost m = module@;
    let variable = module.global_variables.get(token.index());
    assert(variable@ == m.global_variables[token.id() as int]);
    assert(m.complex_types.has_type(m.global_variables[token.id() as int].ty));
    let name = Name::or_index(&variable.name, NameClass::Global, token.index());
    let ty = match variable.ty {
        Type::Pointer(pointer) => {
            let decl = module.complex_types.pointers.get(pointer.index());
            assert(decl@ == m.complex_types.pointers[pointer.id() as int]);
            assert(m.complex_types.has_type(m.complex_types.pointers[pointer.id() as int].base));
            match decl.class {
                StorageClass::Input | StorageClass::Output => decl.base,
                _ => variable.ty,
            }
        },
        _ => variable.ty,
    };
    assert(ty == global_type(m, token.id() as int));
    write_typed_var(out, &module.complex_types, ty, &name, false);
}

/// The line of the global variable `variable` in a struct of inputs or
/// outputs, with its binding written as `mode` asks. A variable that stands
/// in such a struct must have a binding of its own: one without fails.
pub open spec fn global_line(
    m: ModuleView,
    map: Map<BindSource, BindTarget>,
    variable: Token<GlobalVariable>,
    mode: LocationMode,
) -> Piece {
    let v = variable.id() as int;
    if m.global_variables[v].binding is None {
        Err(Error::MissingBinding(variable))
    } else {
        declaration_line(
            typed_global(m, v),
            attribute_text(map, m.global_variables[v].binding, mode),
        )
    }
}

/// Appends the line of the global variable `token` to `out`, or fails where
/// the variable has no binding or its binding cannot be resolved.
fn write_global_line(
    out: &mut String,
    module: &Module,
    options: &Options,
    token: Token<GlobalVariable>,
    mode: LocationMode,
) -> (done: Result<(), Error>)
    requires
        module@.wf(),
        module@.has_global(token),
    ensures
        match global_line(module@, options.binding_map@, token, mode) {
            Ok(text) => done is Ok && final(out)@ == old(out)@ + text,
            Err(e) => done == Err::<(), Error>(e),
        },
{
    let ghost m = module@;
    let variable = module.global_variables.get(token.index());
    assert(variable@ == m.global_variables[token.id() as int]);
    if variable.binding.is_none() {
        return Err(Error::MissingBinding(token));
    }
    out.append("\t");
    write_typed_global(out, module, token);
    let ghost typed = typed_global(m, token.id() as int);
    assert(out@ =~= old(out)@ + ("\t"@ + typed));
    match write_attribute(out, options, &variable.binding, mode) {
        Ok(()) => {},
        Err(e) => {
            return Err(e);
        },
    }
    out.append(";\n");
    proof {
        let attribute = attribute_text(options.binding_map@, variable.binding, mode).unwrap();
        assert(out@ =~= old(out)@ + ("\t"@ + typed + attribute + ";\n"@));
    }
    Ok(())
}

/// The struct whose members take the place of the output variable at
/// position `v`: the struct that the variable points to, if it points to
/// one.
pub open spec fn lifted_struct(m: ModuleView, v: int) -> Option<Token<StructDeclaration>> {
    match m.global_variables[v].ty {
        Type::Pointer(pointer) => match m.complex_types.pointers[pointer.id() as int].base {
            Type::Struct(token) => Some(token),
            _ => None,
        },
        _ => None,
    }
}

/// The line that the member at position `j` of the struct at position `s`
/// gets where it takes the place of the output variable `variable`. A member
/// without a binding makes the variable fail.
pub open spec fn lifted_line(
    m: ModuleView,
    map: Map<BindSource, BindTarget>,
    variable: Token<GlobalVariable>,
    s: int,
    j: int,
    mode: LocationMode,
) -> Piece {
    let member = m.complex_types.structs[s].members[j];
    match member.binding {
        None => Err(Error::MissingBinding(variable)),
        Some(binding) => match resolve(map, binding, mode) {
            Err(e) => Err(e),
            Ok(resolved) => Ok(
                "\t"@ + typed_var(
                    m.complex_types,
                    member.ty,
                    display_name(NameClass::Field, member.name, j as nat),
                ) + " [["@ + resolved.text() + "]];\n"@,
            ),
        },
    }
}

/// The lines of the members of the struct at position `s` in place of
/// `variable`, by position.
pub open spec fn lifted_pieces(
    m: ModuleView,
    map: Map<BindSource, BindTarget>,
    variable: Token<GlobalVariable>,
    s: int,
    mode: LocationMode,
) -> spec_fn(int) -> Piece {
    |j: int| lifted_line(m, map, variable, s, j, mode)
}

/// What the output variable `variable` contributes to the struct of outputs:
/// the lines of the members of the struct it points to, each of which must
/// have a binding, or its own line where it points to no struct, for which it
/// must have a binding itself.
pub open spec fn output_item(
    m: ModuleView,
    map: Map<BindSource, BindTarget>,
    variable: Token<GlobalVariable>,
    mode: LocationMode,
) -> Piece {
    match lifted_struct(m, variable.id() as int) {
        Some(token) => join_all(
            m.complex_types.structs[token.id() as int].members.len(),
            lifted_pieces(m, map, variable, token.id() as int, mode),
        ),
        None => global_line(m, map, variable, mode),
    }
}

/// The struct at position `s` that `variable` points to, if it points to one.
fn find_lifted_struct(module: &Module, variable: Token<GlobalVariable>) -> (found: Option<
    Token<StructDeclaration>,
>)
    requires
        module@.wf(),
        module@.has_global(variable),
    ensures
        found == lifted_struct(module@, variable.id() as int),
        found matches Some(token) ==> token.id() < module@.complex_types.structs.len(),
{
    let ghost m = module@;
    let declaration = module.global_variables.get(variable.index());
    assert(declaration@ == m.global_variables[variable.id() as int]);
    assert(m.complex_types.has_type(m.global_variables[variable.id() as int].ty));
    if let Type::Pointer(pointer) = declaration.ty {
        let decl = module.complex_types.pointers.get(pointer.index());
        assert(decl@ == m.complex_types.pointers[pointer.id() as int]);
        assert(m.complex_types.has_type(m.complex_types.pointers[pointer.id() as int].base));
        if let Type::Struct(token) = decl.base {
            return Some(token);
        }
    }
    None
}

/// Appends what the output variable `variable` contributes to the struct of
/// outputs.
fn write_output_item(
    out: &mut String,
    module: &Module,
    options: &Options,
    variable: Token<GlobalVariable>,
    mode: LocationMode,
) -> (done: Result<(), Error>)
    requires
        module@.wf(),
        module@.has_global(variable),
    ensures
        match output_item(module@, options.binding_map@, variable, mode) {
            Ok(text) => done is Ok && final(out)@ == old(out)@ + text,
            Err(e) => done == Err::<(), Error>(e),
        },
{
    let ghost m = module@;
    let ghost map = options.binding_map@;
    let token = match find_lifted_struct(module, variable) {
        Some(token) => token,
        None => {
            return write_global_line(out, module, options, variable, mode);
        },
    };
    let decl = module.complex_types.structs.get(token.index());
    let ghost s = token.id() as int;
    assert(decl@ == m.complex_types.structs[s]);
    let ghost pieces = lifted_pieces(m, map, variable, s, mode);
    let ghost count = decl@.members.len();
    let ghost mut body = Seq::<char>::empty();
    assert(out@ =~= old(out)@ + body);
    let mut j: usize = 0;
    while j < decl.members.len()
        invariant
            j <= decl.members.len(),
            count == decl.members.len(),
            m == module@,
            map == options.binding_map@,
            m.wf(),
            0 <= s < m.complex_types.structs.len(),
            decl@ == m.complex_types.structs[s],
            s == token.id(),
            lifted_struct(m, variable.id() as int) == Some(token),
            pieces == lifted_pieces(m, map, variable, s, mode),
            join_all(j as nat, pieces) == Ok::<Seq<char>, Error>(body),
            out@ == old(out)@ + body,
        decreases decl.members.len() - j,
    {
        let member = &decl.members[j];
        assert(member@ == decl@.members[j as int]);
        assert(m.complex_types.has_type(m.complex_types.structs[s].members[j as int].ty));
        let ghost before = out@;
        let binding = match &member.binding {
            Some(binding) => binding,
            None => {
                proof {
                    assert(pieces(j as int) == Err::<Seq<char>, Error>(
                        Error::MissingBinding(variable),
                    ));
                    assert(join_all((j + 1) as nat, pieces) == Err::<Seq<char>, Error>(
                        Error::MissingBinding(variable),
                    ));
                    lemma_join_all_stays_failed((j + 1) as nat, count, pieces);
                }
                return Err(Error::MissingBinding(variable));
            },
        };
        let resolved = match options.resolve_binding(binding, mode) {
            Ok(resolved) => resolved,
            Err(e) => {
                proof {
                    assert(pieces(j as int) == Err::<Seq<char>, Error>(e));
                    assert(join_all((j + 1) as nat, pieces) == Err::<Seq<char>, Error>(e));
                    lemma_join_all_stays_failed((j + 1) as nat, count, pieces);
                }
                return Err(e);
            },
        };
        out.append("\t");
        let name = Name::or_index(&member.name, NameClass::Field, j);
        write_typed_var(out, &module.complex_types, member.ty, &name, false);
        out.append(" [[");
        resolved.write_to(out);
        out.append("]];\n");
        proof {
            let piece = pieces(j as int).unwrap();
            assert(out@ =~= before + piece);
            assert(join_all((j + 1) as nat, pieces) == Ok::<Seq<char>, Error>(body + piece));
            assert(out@ =~= old(out)@ + (body + piece));
            body = body + piece;
        }
        j += 1;
    }
    Ok(())
}

/// The lines of the input variables of the function at position `f`, by
/// position among them.
pub open spec fn input_pieces(
    m: ModuleView,
    map: Map<BindSource, BindTarget>,
    f: nat,
    mode: LocationMode,
) -> spec_fn(int) -> Piece {
    |k: int| global_line(m, map, stage_variables(m, f, false)[k], mode)
}

/// What the output variables of the function at position `f` contribute, by
/// position among them.
pub open spec fn output_pieces(
    m: ModuleView,
    map: Map<BindSource, BindTarget>,
    f: nat,
    mode: LocationMode,
) -> spec_fn(int) -> Piece {
    |k: int| output_item(m, map, stage_variables(m, f, true)[k], mode)
}

/// A struct named `name` around the lines `body`.
pub open spec fn struct_around(name: Seq<char>, body: Piece) -> Piece {
    match body {
        Ok(body) => Ok("struct "@ + name + " {\n"@ + body + "};\n"@),
        Err(e) => Err(e),
    }
}

/// The struct of the inputs of the function at position `f`: one line for
/// each input variable.
pub open spec fn input_struct_text(
    m: ModuleView,
    map: Map<BindSource, BindTarget>,
    f: nat,
    mode: LocationMode,
) -> Piece {
    struct_around(
        display_name(NameClass::Input, m.functions[f as int].name, f),
        join_all(stage_variables(m, f, false).len(), input_pieces(m, map, f, mode)),
    )
}

/// The struct of the outputs of the function at position `f`: for each
/// output variable its own line, or the lines of the members of the struct it
/// points to.
pub open spec fn output_struct_text(
    m: ModuleView,
    map: Map<BindSource, BindTarget>,
    f: nat,
    mode: LocationMode,
) -> Piece {
    struct_around(
        display_name(NameClass::Output, m.functions[f as int].name, f),
        join_all(stage_variables(m, f, true).len(), output_pieces(m, map, f, mode)),
    )
}

/// Every variable that an entry point declares for a function is a variable
/// of the module, provided the module is well formed.
pub proof fn lemma_stage_variables_exist(m: ModuleView, f: nat, outputs: bool)
    requires
        m.wf(),
    ensures
        forall|i: int|
            0 <= i < stage_variables(m, f, outputs).len() ==> m.has_global(
                #[trigger] stage_variables(m, f, outputs)[i],
            ),
{
    let all = declared(m, f, outputs, m.entry_points.len());
    lemma_declared_exist(m, f, outputs, m.entry_points.len());
    lemma_distinct_members(all);
    assert forall|i: int| 0 <= i < distinct(all).len() implies m.has_global(
        #[trigger] distinct(all)[i],
    ) by {
        let token = distinct(all)[i];
        assert(distinct(all).contains(token));
        assert(all.contains(token));
        let j = choose|j: int| 0 <= j < all.len() && all[j] == token;
        assert(m.has_global(all[j]));
    }
}

/// The members of `distinct(s)` are those of `s`, and no two of them are
/// the same.
pub proof fn lemma_distinct_members(s: Seq<Token<GlobalVariable>>)
    ensures
        forall|t: Token<GlobalVariable>| distinct(s).contains(t) <==> s.contains(t),
        distinct(s).no_duplicates(),
    decreases s.len(),
{
    if s.len() > 0 {
        let before = distinct(s.drop_last());
        lemma_distinct_members(s.drop_last());
        assert forall|t: Token<GlobalVariable>| distinct(s).contains(t) <==> s.contains(t) by {
            if s.contains(t) {
                let i = choose|i: int| 0 <= i < s.len() && s[i] == t;
                if i < s.len() - 1 {
                    assert(s.drop_last()[i] == t);
                    assert(s.drop_last().contains(t));
                    assert(before.contains(t));
                    let j = choose|j: int| 0 <= j < before.len() && before[j] == t;
                    assert(distinct(s)[j] == t);
                } else {
                    if !before.contains(t) {
                        assert(distinct(s)[before.len() as int] == t);
                    } else {
                        let j = choose|j: int| 0 <= j < before.len() && before[j] == t;
                        assert(distinct(s)[j] == t);
                    }
                }
            }
            if distinct(s).contains(t) {
                let j = choose|j: int| 0 <= j < distinct(s).len() && distinct(s)[j] == t;
                if j < before.len() {
                    assert(before[j] == t);
                    assert(before.contains(t));
                    assert(s.drop_last().contains(t));
                    let i = choose|i: int| 0 <= i < s.drop_last().len() && s.drop_last()[i] == t;
                    assert(s[i] == t);
                } else {
                    assert(s[s.len() - 1] == t);
                }
            }
        }
    }
}

proof fn lemma_declared_exist(m: ModuleView, f: nat, outputs: bool, k: nat)
    requires
        m.wf(),
        k <= m.entry_points.len(),
    ensures
        forall|i: int|
            0 <= i < declared(m, f, outputs, k).len() ==> m.has_global(
                #[trigger] declared(m, f, outputs, k)[i],
            ),
    decreases k,
{
    if k > 0 {
        lemma_declared_exist(m, f, outputs, (k - 1) as nat);
        let before = declared(m, f, outputs, (k - 1) as nat);
        let added = variables_of(m, k - 1, outputs);
        assert(m.entry_point_wf(m.entry_points[k - 1]));
        assert forall|i: int| 0 <= i < declared(m, f, outputs, k).len() implies m.has_global(
            #[trigger] declared(m, f, outputs, k)[i],
        ) by {
            if i < before.len() {
                assert(declared(m, f, outputs, k)[i] == before[i]);
            } else {
                assert(declared(m, f, outputs, k)[i] == added[i - before.len()]);
                if outputs {
                    assert(m.has_global(m.entry_points[k - 1].outputs[i - before.len()]));
                } else {
                    assert(m.has_global(m.entry_points[k - 1].inputs[i - before.len()]));
                }
            }
        }
    }
}

/// Appends the struct of the inputs or of the outputs of the function at
/// position `f` to `out`. Where it fails, `out` is left with an unfinished
/// struct.
pub(crate) fn write_stage_struct(
    out: &mut String,
    module: &Module,
    options: &Options,
    f: usize,
    outputs: bool,
    mode: LocationMode,
) -> (done: Result<(), Error>)
    requires
        module@.wf(),
        f < module@.functions.len(),
    ensures
        match (if outputs {
            output_struct_text(module@, options.binding_map@, f as nat, mode)
        } else {
            input_struct_text(module@, options.binding_map@, f as nat, mode)
        }) {
            Ok(text) => done is Ok && final(out)@ == old(out)@ + text,
            Err(e) => done == Err::<(), Error>(e),
        },
{
    let ghost m = module@;
    let ghost map = options.binding_map@;
    let function = module.functions.get(f);
    assert(function@ == m.functions[f as int]);
    let class = if outputs {
        NameClass::Output
    } else {
        NameClass::Input
    };
    let variables = gather_variables(module, f, outputs);
    proof {
        lemma_stage_variables_exist(m, f as nat, outputs);
    }
    let ghost pieces = if outputs {
        output_pieces(m, map, f as nat, mode)
    } else {
        input_pieces(m, map, f as nat, mode)
    };
    let ghost count = variables@.len();
    out.append("struct ");
    Name::or_index(&function.name, class, f).write_to(out);
    out.append(" {\n");
    let ghost name = display_name(class, function@.name, f as nat);
    let ghost head = out@;
    assert(head =~= old(out)@ + ("struct "@ + name + " {\n"@));
    let ghost mut body = Seq::<char>::empty();
    let mut k: usize = 0;
    while k < variables.len()
        invariant
            k <= variables.len(),
            count == variables.len(),
            m == module@,
            map == options.binding_map@,
            m.wf(),
            variables@ == stage_variables(m, f as nat, outputs),
            forall|i: int| 0 <= i < variables.len() ==> m.has_global(#[trigger] variables@[i]),
            pieces == (if outputs {
                output_pieces(m, map, f as nat, mode)
            } else {
                input_pieces(m, map, f as nat, mode)
            }),
            join_all(k as nat, pieces) == Ok::<Seq<char>, Error>(body),
            out@ == head + body,
        decreases variables.len() - k,
    {
        let variable = variables[k];
        let written = if outputs {
            write_output_item(out, module, options, variable, mode)
        } else {
            write_global_line(out, module, options, variable, mode)
        };
        match written {
            Ok(()) => {},
            Err(e) => {
                proof {
                    assert(pieces(k as int) == Err::<Seq<char>, Error>(e));
                    assert(join_all((k + 1) as nat, pieces) == Err::<Seq<char>, Error>(e));
                    lemma_join_all_stays_failed((k + 1) as nat, count, pieces);
                }
                return Err(e);
            },
        }
        proof {
            let piece = pieces(k as int).unwrap();
            assert(join_all((k + 1) as nat, pieces) == Ok::<Seq<char>, Error>(body + piece));
            assert(out@ =~= head + (body + piece));
            body = body + piece;
        }
        k += 1;
    }
    out.append("};\n");
    assert(out@ =~= old(out)@ + ("struct "@ + name + " {\n"@ + body + "};\n"@));
    Ok(())
}

} // verus!
