//! What holds of every translation, stated over the texts that the
//! translation is defined by.

use crate::arena::Token;
use crate::binding::{resolve, BindSource, BindTarget, LocationMode, ResolvedBinding};
use crate::entry::{
    declared, global_line, has_mixed_models, input_mode, input_pieces, input_struct_text, is_entry,
    lemma_distinct_members, lifted_line, lifted_pieces, lifted_struct, output_item, output_mode,
    output_pieces, output_struct_text, some_entry, stage_keyword, stage_of, stage_variables,
    targets, variables_of,
};
use crate::error::Error;
use crate::function::function_text;
use crate::ir::{Binding, BuiltIn, Function, GlobalVariable, ModuleView};
use crate::join::{join_all, lemma_join_all_first_failure, lemma_join_all_stays_failed};
use crate::name::{display_name, NameClass};
use crate::text::{decimal, lemma_decimal_injective, lemma_decimal_is_digits};
use crate::types::{
    attribute_text, member_pieces, member_text, struct_pieces, struct_text, types_text,
};
use crate::writer::{function_pieces, module_text};
use vstd::prelude::*;

verus! {

/// Two generated names are the same only where they name the same thing:
/// names of different classes differ whatever the positions, and names of
/// one class differ where the positions do.
pub proof fn lemma_generated_names_differ(first: NameClass, i: nat, second: NameClass, j: nat)
    requires
        display_name(first, None, i) == display_name(second, None, j),
    ensures
        first == second,
        i == j,
{
    reveal_strlit("Pointer");
    reveal_strlit("Array");
    reveal_strlit("Struct");
    reveal_strlit("global");
    reveal_strlit("function");
    reveal_strlit("field");
    reveal_strlit("param");
    reveal_strlit("Input");
    reveal_strlit("Output");
    lemma_decimal_is_digits(i);
    lemma_decimal_is_digits(j);
    let a = first.label();
    let b = second.label();
    let left = a + decimal(i);
    let right = b + decimal(j);
    assert(forall|k: int| 0 <= k < a.len() ==> !('0' <= #[trigger] a[k] <= '9'));
    assert(forall|k: int| 0 <= k < b.len() ==> !('0' <= #[trigger] b[k] <= '9'));
    if a.len() < b.len() {
        assert(left[a.len() as int] == decimal(i)[0]);
        assert(right[a.len() as int] == b[a.len() as int]);
    } else if b.len() < a.len() {
        assert(right[b.len() as int] == decimal(j)[0]);
        assert(left[b.len() as int] == a[b.len() as int]);
    } else {
        assert(a =~= left.subrange(0, a.len() as int));
        assert(b =~= right.subrange(0, b.len() as int));
        assert(a[0] == b[0]);
        assert(first == second);
        assert(decimal(i) =~= left.subrange(a.len() as int, left.len() as int));
        assert(decimal(j) =~= right.subrange(b.len() as int, right.len() as int));
        lemma_decimal_injective(i, j);
    }
}

/// A descriptor that the table holds resolves to the slot of the table, in
/// every kind of place, and is written as the first kind of slot that the
/// target names: buffer before texture before sampler.
pub proof fn lemma_descriptor_resolves_to_slot(
    map: Map<BindSource, BindTarget>,
    set: u32,
    binding: u32,
    mode: LocationMode,
)
    requires
        map.contains_key(BindSource { set, binding }),
        map[BindSource { set, binding }].is_populated(),
    ensures
        resolve(map, Binding::Descriptor { set, binding }, mode) matches Ok(resolved) && {
            let target = map[BindSource { set, binding }];
            &&& resolved == ResolvedBinding::Resource(target)
            &&& target.buffer is Some ==> resolved.text() == "buffer("@ + decimal(
                target.buffer.unwrap() as nat,
            ) + ")"@
            &&& (target.buffer is None && target.texture is Some) ==> resolved.text()
                == "texture("@ + decimal(target.texture.unwrap() as nat) + ")"@
            &&& (target.buffer is None && target.texture is None) ==> resolved.text()
                == "sampler("@ + decimal(target.sampler.unwrap() as nat) + ")"@
        },
{
}

/// A location is written as an attribute among vertex inputs, as a colour
/// among fragment outputs, and as a user attribute everywhere else, with its
/// number, whatever the number and the table.
pub proof fn lemma_location_follows_mode(map: Map<BindSource, BindTarget>, index: u32)
    ensures
        resolve(map, Binding::Location(index), LocationMode::VertexInput) matches Ok(r) && r.text()
            == "attribute("@ + decimal(index as nat) + ")"@,
        resolve(map, Binding::Location(index), LocationMode::FragmentOutput) matches Ok(r)
            && r.text() == "color("@ + decimal(index as nat) + ")"@,
        resolve(map, Binding::Location(index), LocationMode::Intermediate) matches Ok(r) && r.text()
            == "user("@ + "loc"@ + decimal(index as nat) + ")"@,
{
}

/// A built-in is written under its fixed name, whatever the kind of place
/// and the table.
pub proof fn lemma_built_in_ignores_mode(
    map: Map<BindSource, BindTarget>,
    built_in: BuiltIn,
    mode: LocationMode,
)
    ensures
        resolve(map, Binding::BuiltIn(built_in), mode) matches Ok(r) && r.text() == (match built_in {
            BuiltIn::ClipDistance => "clip_distance"@,
            BuiltIn::PointSize => "point_size"@,
            BuiltIn::Position => "position"@,
        }),
{
}

/// A descriptor that the table does not hold fails to resolve, and the
/// failure names exactly that descriptor.
pub proof fn lemma_missing_descriptor_fails(
    map: Map<BindSource, BindTarget>,
    set: u32,
    binding: u32,
    mode: LocationMode,
)
    requires
        !map.contains_key(BindSource { set, binding }),
    ensures
        resolve(map, Binding::Descriptor { set, binding }, mode) == Err::<ResolvedBinding, Error>(
            Error::MissingBindTarget(BindSource { set, binding }),
        ),
{
}

/// Where a function has no text, the module has no translation. Where
/// the types and the functions before it have a text, the module fails as
/// that function does.
pub proof fn lemma_failing_function_fails_module(
    m: ModuleView,
    map: Map<BindSource, BindTarget>,
    f: int,
)
    requires
        0 <= f < m.functions.len(),
        function_text(m, map, f) is Err,
    ensures
        module_text(m, map) is Err,
        types_text(m.complex_types, map) is Ok && join_all(f as nat, function_pieces(m, map)) is Ok
            ==> module_text(m, map) == function_text(m, map, f),
{
    let pieces = function_pieces(m, map);
    assert(pieces(f) == function_text(m, map, f));
    assert(join_all((f + 1) as nat, pieces) is Err);
    lemma_join_all_stays_failed((f + 1) as nat, m.functions.len(), pieces);
}

/// A function that entry points of different stages start has no text: it
/// fails, and the failure names the function. The translation of a module
/// with such a function fails too, and it fails in this way unless the types
/// or an earlier function fail before.
pub proof fn lemma_mixed_models_fail(m: ModuleView, map: Map<BindSource, BindTarget>, f: nat)
    requires
        f < m.functions.len(),
        has_mixed_models(m, f),
    ensures
        function_text(m, map, f as int) == Err::<Seq<char>, Error>(
            Error::MixedExecutionModels(Token::at(f as usize)),
        ),
        module_text(m, map) is Err,
        types_text(m.complex_types, map) is Ok && join_all(f, function_pieces(m, map)) is Ok
            ==> module_text(m, map) == Err::<Seq<char>, Error>(
            Error::MixedExecutionModels(Token::at(f as usize)),
        ),
{
    let (j, k) = choose|j: int, k: int|
        0 <= j < m.entry_points.len() && 0 <= k < m.entry_points.len() && #[trigger] targets(m, j, f)
            && #[trigger] targets(m, k, f) && m.entry_points[j].exec_model
            != m.entry_points[k].exec_model;
    assert(is_entry(m, f));
    lemma_failing_function_fails_module(m, map, f as int);
}

/// A function whose entry points agree on a stage without keyword has no
/// text: it fails, and the failure names the stage. The module fails too,
/// and in this way unless the types or an earlier function fail before.
pub proof fn lemma_unsupported_stage_fails(
    m: ModuleView,
    map: Map<BindSource, BindTarget>,
    f: nat,
    k: int,
)
    requires
        f < m.functions.len(),
        0 <= k < m.entry_points.len(),
        targets(m, k, f),
        !has_mixed_models(m, f),
        stage_keyword(m.entry_points[k].exec_model) is None,
    ensures
        function_text(m, map, f as int) == Err::<Seq<char>, Error>(
            Error::UnsupportedExecutionModel(m.entry_points[k].exec_model),
        ),
        module_text(m, map) is Err,
        types_text(m.complex_types, map) is Ok && join_all(f, function_pieces(m, map)) is Ok
            ==> module_text(m, map) == Err::<Seq<char>, Error>(
            Error::UnsupportedExecutionModel(m.entry_points[k].exec_model),
        ),
{
    assert(is_entry(m, f));
    let chosen = some_entry(m, f);
    assert(targets(m, chosen, f));
    assert(m.entry_points[chosen].exec_model == m.entry_points[k].exec_model);
    lemma_failing_function_fails_module(m, map, f as int);
}

/// A function that no entry point starts has neither inputs nor outputs.
pub proof fn lemma_no_entry_no_variables(m: ModuleView, f: nat, outputs: bool, k: nat)
    requires
        !is_entry(m, f),
        k <= m.entry_points.len(),
    ensures
        declared(m, f, outputs, k) == Seq::<Token<GlobalVariable>>::empty(),
        k == m.entry_points.len() ==> stage_variables(m, f, outputs).len() == 0,
    decreases k,
{
    if k > 0 {
        lemma_no_entry_no_variables(m, f, outputs, (k - 1) as nat);
        assert(!targets(m, k - 1, f));
    }
}

/// An output variable that points to a struct with a member without a
/// binding cannot be written: its function has no text, and the module has
/// no translation. Where nothing of the function fails before that member,
/// the function fails with the missing binding of the variable; and so does
/// the module, where nothing before the function fails.
pub proof fn lemma_unbound_member_fails(
    m: ModuleView,
    map: Map<BindSource, BindTarget>,
    f: nat,
    k: int,
    j: int,
)
    requires
        f < m.functions.len(),
        0 <= k < stage_variables(m, f, true).len(),
        lifted_struct(m, stage_variables(m, f, true)[k].id() as int) matches Some(s) && 0 <= j
            < m.complex_types.structs[s.id() as int].members.len()
            && m.complex_types.structs[s.id() as int].members[j].binding is None,
    ensures
        function_text(m, map, f as int) is Err,
        module_text(m, map) is Err,
        nothing_fails_before_member(m, map, f, k, j) ==> function_text(m, map, f as int)
            == Err::<Seq<char>, Error>(Error::MissingBinding(stage_variables(m, f, true)[k])),
        nothing_fails_before_member(m, map, f, k, j) && types_text(m.complex_types, map) is Ok
            && join_all(f, function_pieces(m, map)) is Ok ==> module_text(m, map) == Err::<
            Seq<char>,
            Error,
        >(Error::MissingBinding(stage_variables(m, f, true)[k])),
{
    if !is_entry(m, f) {
        lemma_no_entry_no_variables(m, f, true, m.entry_points.len());
    }
    if let Ok(Some(em)) = stage_of(m, f) {
        if stage_keyword(em) is Some {
            let mode = output_mode(em);
            let variable = stage_variables(m, f, true)[k];
            let s = lifted_struct(m, variable.id() as int).unwrap().id() as int;
            let members = lifted_pieces(m, map, variable, s, mode);
            let outputs = output_pieces(m, map, f, mode);
            let count = m.complex_types.structs[s].members.len();
            assert(members(j) == lifted_line(m, map, variable, s, j, mode));
            assert(members(j) == Err::<Seq<char>, Error>(Error::MissingBinding(variable)));
            assert(join_all((j + 1) as nat, members) is Err);
            lemma_join_all_stays_failed((j + 1) as nat, count, members);
            assert(outputs(k) == output_item(m, map, variable, mode));
            assert(outputs(k) is Err);
            assert(join_all((k + 1) as nat, outputs) is Err);
            lemma_join_all_stays_failed((k + 1) as nat, stage_variables(m, f, true).len(), outputs);
            assert(output_struct_text(m, map, f, mode) is Err);
        }
    }
    lemma_failing_function_fails_module(m, map, f as int);
}

/// A variable without a binding cannot stand in the struct of the inputs,
/// nor, where it points to no struct, in the struct of the outputs: the
/// function that receives or returns it has no text, and the module has no
/// translation. The line of the variable fails with the missing binding of
/// the variable.
pub proof fn lemma_unbound_variable_fails(
    m: ModuleView,
    map: Map<BindSource, BindTarget>,
    f: nat,
    outputs: bool,
    k: int,
    mode: LocationMode,
)
    requires
        f < m.functions.len(),
        0 <= k < stage_variables(m, f, outputs).len(),
        m.global_variables[stage_variables(m, f, outputs)[k].id() as int].binding is None,
        outputs ==> lifted_struct(m, stage_variables(m, f, outputs)[k].id() as int) is None,
    ensures
        global_line(m, map, stage_variables(m, f, outputs)[k], mode) == Err::<Seq<char>, Error>(
            Error::MissingBinding(stage_variables(m, f, outputs)[k]),
        ),
        function_text(m, map, f as int) is Err,
        module_text(m, map) is Err,
{
    if !is_entry(m, f) {
        lemma_no_entry_no_variables(m, f, outputs, m.entry_points.len());
    }
    if let Ok(Some(em)) = stage_of(m, f) {
        if stage_keyword(em) is Some {
            let variable = stage_variables(m, f, outputs)[k];
            let count = stage_variables(m, f, outputs).len();
            if outputs {
                let pieces = output_pieces(m, map, f, output_mode(em));
                assert(pieces(k) == output_item(m, map, variable, output_mode(em)));
                assert(pieces(k) is Err);
                assert(join_all((k + 1) as nat, pieces) is Err);
                lemma_join_all_stays_failed((k + 1) as nat, count, pieces);
                assert(output_struct_text(m, map, f, output_mode(em)) is Err);
            } else {
                let pieces = input_pieces(m, map, f, input_mode(em));
                assert(pieces(k) == global_line(m, map, variable, input_mode(em)));
                assert(pieces(k) is Err);
                assert(join_all((k + 1) as nat, pieces) is Err);
                lemma_join_all_stays_failed((k + 1) as nat, count, pieces);
                assert(input_struct_text(m, map, f, input_mode(em)) is Err);
            }
        }
    }
    lemma_failing_function_fails_module(m, map, f as int);
}

/// Whether the function at position `f` is started by entry points that
/// agree on a stage with a keyword, has a struct of inputs, and neither the
/// first `k` of its outputs nor the first `j` members of the struct that its
/// output at position `k` points to fail.
pub open spec fn nothing_fails_before_member(
    m: ModuleView,
    map: Map<BindSource, BindTarget>,
    f: nat,
    k: int,
    j: int,
) -> bool {
    &&& stage_of(m, f) matches Ok(Some(em))
    &&& stage_keyword(em) is Some
    &&& input_struct_text(m, map, f, input_mode(em)) is Ok
    &&& join_all(k as nat, output_pieces(m, map, f, output_mode(em))) is Ok
    &&& lifted_struct(m, stage_variables(m, f, true)[k].id() as int) matches Some(s)
    &&& join_all(
        j as nat,
        lifted_pieces(m, map, stage_variables(m, f, true)[k], s.id() as int, output_mode(em)),
    ) is Ok
}

/// The input or output variables of a function are the variables that the
/// entry points which start it declare: each of them, and each once.
pub proof fn lemma_stage_variables_are_the_union(m: ModuleView, f: nat, outputs: bool)
    ensures
        stage_variables(m, f, outputs).no_duplicates(),
        forall|t: Token<GlobalVariable>|
            stage_variables(m, f, outputs).contains(t) <==> exists|k: int|
                0 <= k < m.entry_points.len() && #[trigger] targets(m, k, f) && variables_of(
                    m,
                    k,
                    outputs,
                ).contains(t),
{
    let all = declared(m, f, outputs, m.entry_points.len());
    lemma_distinct_members(all);
    assert forall|t: Token<GlobalVariable>|
        stage_variables(m, f, outputs).contains(t) <==> exists|k: int|
            0 <= k < m.entry_points.len() && #[trigger] targets(m, k, f) && variables_of(
                m,
                k,
                outputs,
            ).contains(t) by {
        lemma_declared_members(m, f, outputs, m.entry_points.len(), t);
    }
}

/// What the first `n` entry points declare for a function is what those of
/// them declare that start it.
pub proof fn lemma_declared_members(
    m: ModuleView,
    f: nat,
    outputs: bool,
    n: nat,
    t: Token<GlobalVariable>,
)
    ensures
        declared(m, f, outputs, n).contains(t) <==> exists|k: int|
            0 <= k < n && #[trigger] targets(m, k, f) && variables_of(m, k, outputs).contains(t),
    decreases n,
{
    if n > 0 {
        lemma_declared_members(m, f, outputs, (n - 1) as nat, t);
        let before = declared(m, f, outputs, (n - 1) as nat);
        let added = variables_of(m, n - 1, outputs);
        let now = declared(m, f, outputs, n);
        if now.contains(t) {
            let i = choose|i: int| 0 <= i < now.len() && now[i] == t;
            if targets(m, n - 1, f) {
                if i < before.len() {
                    assert(before[i] == t);
                    assert(before.contains(t));
                    let k = choose|k: int|
                        0 <= k < n - 1 && #[trigger] targets(m, k, f) && variables_of(
                            m,
                            k,
                            outputs,
                        ).contains(t);
                    assert(0 <= k < n && targets(m, k, f));
                } else {
                    assert(added[i - before.len()] == t);
                    assert(added.contains(t));
                    assert(0 <= n - 1 < n && targets(m, n - 1, f));
                }
            } else {
                let k = choose|k: int|
                    0 <= k < n - 1 && #[trigger] targets(m, k, f) && variables_of(
                        m,
                        k,
                        outputs,
                    ).contains(t);
                assert(0 <= k < n && targets(m, k, f));
            }
        }
        if exists|k: int|
            0 <= k < n && #[trigger] targets(m, k, f) && variables_of(m, k, outputs).contains(t) {
            let k = choose|k: int|
                0 <= k < n && #[trigger] targets(m, k, f) && variables_of(m, k, outputs).contains(t);
            if k < n - 1 {
                assert(before.contains(t));
                let i = choose|i: int| 0 <= i < before.len() && before[i] == t;
                assert(now[i] == t);
            } else {
                let i = choose|i: int| 0 <= i < added.len() && added[i] == t;
                assert(now[before.len() + i] == t);
            }
        }
    }
}

/// Whether `e` names a defect of module `m` under the table `map`: a
/// function that entry points of different stages start, a stage of an entry
/// point that has no keyword, a variable without a binding or one that points
/// to a struct with a member without a binding, or a descriptor that `map`
/// does not hold.
pub open spec fn is_defect(m: ModuleView, map: Map<BindSource, BindTarget>, e: Error) -> bool {
    match e {
        Error::MixedExecutionModels(token) => exists|f: nat|
            f < m.functions.len() && token == Token::<Function>::at(f as usize)
                && #[trigger] has_mixed_models(m, f),
        Error::UnsupportedExecutionModel(em) => stage_keyword(em) is None && exists|k: int|
            0 <= k < m.entry_points.len() && (#[trigger] m.entry_points[k]).exec_model == em,
        Error::MissingBinding(variable) => {
            ||| m.global_variables[variable.id() as int].binding is None
            ||| lifted_struct(m, variable.id() as int) matches Some(s) && exists|j: int|
                0 <= j < m.complex_types.structs[s.id() as int].members.len() && (
                #[trigger] m.complex_types.structs[s.id() as int].members[j]).binding is None
        },
        Error::MissingBindTarget(source) => !map.contains_key(source),
        _ => false,
    }
}

/// A binding fails to resolve only for a descriptor that the table does not
/// hold.
pub proof fn lemma_attribute_failure(
    m: ModuleView,
    map: Map<BindSource, BindTarget>,
    binding: Option<Binding>,
    mode: LocationMode,
)
    ensures
        attribute_text(map, binding, mode) matches Err(e) ==> is_defect(m, map, e),
{
}

/// The declarations of the types fail only with a defect of the module.
pub proof fn lemma_types_failure(m: ModuleView, map: Map<BindSource, BindTarget>)
    ensures
        types_text(m.complex_types, map) matches Err(e) ==> is_defect(m, map, e),
{
    let types = m.complex_types;
    if let Err(e) = types_text(types, map) {
        let structs = struct_pieces(types, map);
        lemma_join_all_first_failure(types.structs.len(), structs);
        let i = choose|i: int|
            0 <= i < types.structs.len() && #[trigger] structs(i) == Err::<Seq<char>, Error>(e);
        assert(structs(i) == struct_text(types, map, i));
        let members = member_pieces(types, map, i);
        lemma_join_all_first_failure(types.structs[i].members.len(), members);
        let j = choose|j: int|
            0 <= j < types.structs[i].members.len() && #[trigger] members(j) == Err::<
                Seq<char>,
                Error,
            >(e);
        let member = types.structs[i].members[j];
        assert(members(j) == member_text(types, map, member, j));
        lemma_attribute_failure(m, map, member.binding, LocationMode::Intermediate);
    }
}

/// What an output variable contributes fails only with a defect of the
/// module.
pub proof fn lemma_output_failure(
    m: ModuleView,
    map: Map<BindSource, BindTarget>,
    variable: Token<GlobalVariable>,
    mode: LocationMode,
)
    ensures
        output_item(m, map, variable, mode) matches Err(e) ==> is_defect(m, map, e),
{
    if let Err(e) = output_item(m, map, variable, mode) {
        match lifted_struct(m, variable.id() as int) {
            Some(token) => {
                let s = token.id() as int;
                let members = lifted_pieces(m, map, variable, s, mode);
                lemma_join_all_first_failure(m.complex_types.structs[s].members.len(), members);
                let j = choose|j: int|
                    0 <= j < m.complex_types.structs[s].members.len() && #[trigger] members(j)
                        == Err::<Seq<char>, Error>(e);
                assert(members(j) == lifted_line(m, map, variable, s, j, mode));
                let member = m.complex_types.structs[s].members[j];
                if member.binding is None {
                    assert(e == Error::MissingBinding(variable));
                    assert(m.complex_types.structs[s].members[j].binding is None);
                }
            },
            None => {
                lemma_attribute_failure(
                    m,
                    map,
                    m.global_variables[variable.id() as int].binding,
                    mode,
                );
            },
        }
    }
}

/// A function fails only with a defect of the module.
pub proof fn lemma_function_failure(m: ModuleView, map: Map<BindSource, BindTarget>, f: nat)
    requires
        f < m.functions.len(),
    ensures
        function_text(m, map, f as int) matches Err(e) ==> is_defect(m, map, e),
{
    if let Err(e) = function_text(m, map, f as int) {
        match stage_of(m, f) {
            Err(_) => {
                assert(has_mixed_models(m, f));
            },
            Ok(None) => {},
            Ok(Some(em)) => {
                if stage_keyword(em) is None {
                    let k = some_entry(m, f);
                    assert(targets(m, k, f));
                    assert(m.entry_points[k].exec_model == em);
                } else if let Err(e1) = input_struct_text(m, map, f, input_mode(em)) {
                    let inputs = input_pieces(m, map, f, input_mode(em));
                    lemma_join_all_first_failure(stage_variables(m, f, false).len(), inputs);
                    let k = choose|k: int|
                        0 <= k < stage_variables(m, f, false).len() && #[trigger] inputs(k) == Err::<
                            Seq<char>,
                            Error,
                        >(e1);
                    let variable = stage_variables(m, f, false)[k];
                    let v = variable.id() as int;
                    assert(inputs(k) == global_line(m, map, variable, input_mode(em)));
                    lemma_attribute_failure(
                        m,
                        map,
                        m.global_variables[v].binding,
                        input_mode(em),
                    );
                } else if let Err(e2) = output_struct_text(m, map, f, output_mode(em)) {
                    let outputs = output_pieces(m, map, f, output_mode(em));
                    lemma_join_all_first_failure(stage_variables(m, f, true).len(), outputs);
                    let k = choose|k: int|
                        0 <= k < stage_variables(m, f, true).len() && #[trigger] outputs(k) == Err::<
                            Seq<char>,
                            Error,
                        >(e2);
                    let variable = stage_variables(m, f, true)[k];
                    assert(outputs(k) == output_item(m, map, variable, output_mode(em)));
                    lemma_output_failure(m, map, variable, output_mode(em));
                }
            },
        }
    }
}

/// A translation fails only with a defect of the module: it never fails
/// where there is none, and what it fails with names one.
pub proof fn lemma_failures_name_defects(m: ModuleView, map: Map<BindSource, BindTarget>)
    ensures
        module_text(m, map) matches Err(e) ==> is_defect(m, map, e),
{
    if let Err(e) = module_text(m, map) {
        lemma_types_failure(m, map);
        if types_text(m.complex_types, map) is Ok {
            let functions = function_pieces(m, map);
            lemma_join_all_first_failure(m.functions.len(), functions);
            let f = choose|f: int|
                0 <= f < m.functions.len() && #[trigger] functions(f) == Err::<Seq<char>, Error>(e);
            assert(functions(f) == function_text(m, map, f));
            lemma_function_failure(m, map, f as nat);
        }
    }
}

/// The translation depends on nothing but the module and the table: two
/// results that both meet what a translation promises of the same module and
/// the same table are the same text, or the same failure.
pub proof fn lemma_translation_is_determined(
    m: ModuleView,
    map: Map<BindSource, BindTarget>,
    first: Result<String, Error>,
    second: Result<String, Error>,
)
    requires
        match module_text(m, map) {
            Ok(text) => first matches Ok(s) && s@ == text,
            Err(e) => first == Err::<String, Error>(e),
        },
        match module_text(m, map) {
            Ok(text) => second matches Ok(s) && s@ == text,
            Err(e) => second == Err::<String, Error>(e),
        },
    ensures
        first is Ok <==> second is Ok,
        first matches Ok(a) ==> second matches Ok(b) && a@ == b@,
        first matches Err(e) ==> second == Err::<String, Error>(e),
{
}

} // verus!
