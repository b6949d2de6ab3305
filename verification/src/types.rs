//! The declarations of pointer, array and struct types, in the order of their
//! arenas: first every pointer, then every array, then every struct.
//!
//! Nothing is reordered. A pointer to a struct is written before the struct
//! itself, so the struct is announced in the line before the pointer.

use crate::binding::{resolve, BindSource, BindTarget, LocationMode, Options};
use crate::error::Error;
use crate::ir::{
    Binding, ComplexTypes, ComplexTypesView, ScalarKind, StorageClass, StructMember,
    StructMemberView, Type, VectorSize,
};
use crate::join::{concat_all, join_all, lemma_join_all_stays_failed, Piece};
use crate::name::{display_name, Name, NameClass};
use crate::text::{decimal, push_decimal};
use vstd::prelude::*;
use vstd::string::*;

verus! {

/// The keyword of a scalar kind.
pub open spec fn scalar_kind_name(kind: ScalarKind) -> Seq<char> {
    match kind {
        ScalarKind::Float => "float"@,
        ScalarKind::Sint => "signed int"@,
        ScalarKind::Uint => "unsigned int"@,
    }
}

/// The numeral of a vector size.
pub open spec fn vector_size_name(size: VectorSize) -> Seq<char> {
    match size {
        VectorSize::Bi => "2"@,
        VectorSize::Tri => "3"@,
        VectorSize::Quad => "4"@,
    }
}

/// The keyword of a scalar kind.
pub fn scalar_kind_string(kind: ScalarKind) -> (keyword: &'static str)
    ensures
        keyword@ == scalar_kind_name(kind),
{
    match kind {
        ScalarKind::Float => "float",
        ScalarKind::Sint => "signed int",
        ScalarKind::Uint => "unsigned int",
    }
}

/// The numeral of a vector size.
pub fn vector_size_string(size: VectorSize) -> (numeral: &'static str)
    ensures
        numeral@ == vector_size_name(size),
{
    match size {
        VectorSize::Bi => "2",
        VectorSize::Tri => "3",
        VectorSize::Quad => "4",
    }
}

/// How a type is spelled where it is used: a keyword with its sizes for the
/// types that have one, the name of the declaration for the others.
pub open spec fn type_spelling(types: ComplexTypesView, ty: Type) -> Seq<char>
    recommends
        types.has_type(ty),
{
    match ty {
        Type::Void => "void"@,
        Type::Scalar { kind } => scalar_kind_name(kind),
        Type::Vector { size, kind } => scalar_kind_name(kind) + vector_size_name(size),
        Type::Matrix { columns, rows, kind } => scalar_kind_name(kind) + vector_size_name(columns)
            + "x"@ + vector_size_name(rows),
        Type::Pointer(token) => display_name(
            NameClass::Pointer,
            types.pointers[token.id() as int].name,
            token.id(),
        ),
        Type::Array(token) => display_name(
            NameClass::Array,
            types.arrays[token.id() as int].name,
            token.id(),
        ),
        Type::Struct(token) => display_name(
            NameClass::Struct,
            types.structs[token.id() as int].name,
            token.id(),
        ),
    }
}

/// A variable `var` declared with type `ty`: the type, a space, the variable.
pub open spec fn typed_var(types: ComplexTypesView, ty: Type, var: Seq<char>) -> Seq<char> {
    type_spelling(types, ty) + " "@ + var
}

/// Appends the spelling of `ty` to `out`.
pub fn write_type_spelling(out: &mut String, types: &ComplexTypes, ty: Type)
    requires
        types@.has_type(ty),
    ensures
        final(out)@ == old(out)@ + type_spelling(types@, ty),
{
    match ty {
        Type::Void => {
            out.append("void");
        },
        Type::Scalar { kind } => {
            out.append(scalar_kind_string(kind));
        },
        Type::Vector { size, kind } => {
            out.append(scalar_kind_string(kind));
            out.append(vector_size_string(size));
        },
        Type::Matrix { columns, rows, kind } => {
            out.append(scalar_kind_string(kind));
            out.append(vector_size_string(columns));
            out.append("x");
            out.append(vector_size_string(rows));
        },
        Type::Pointer(token) => {
            let decl = types.pointers.get(token.index());
            Name::or_index(&decl.name, NameClass::Pointer, token.index()).write_to(out);
        },
        Type::Array(token) => {
            let decl = types.arrays.get(token.index());
            Name::or_index(&decl.name, NameClass::Array, token.index()).write_to(out);
        },
        Type::Struct(token) => {
            let decl = types.structs.get(token.index());
            Name::or_index(&decl.name, NameClass::Struct, token.index()).write_to(out);
        },
    }
    assert(out@ =~= old(out)@ + type_spelling(types@, ty));
}

/// Appends the declaration of a variable named `var` of type `ty` to `out`.
/// With `starred`, the variable is declared as a pointer to `ty`.
pub fn write_typed_var(out: &mut String, types: &ComplexTypes, ty: Type, var: &Name, starred: bool)
    requires
        types@.has_type(ty),
    ensures
        final(out)@ == old(out)@ + typed_var(
            types@,
            ty,
            if starred {
                "*"@ + var.text()
            } else {
                var.text()
            },
        ),
{
    write_type_spelling(out, types, ty);
    out.append(" ");
    if starred {
        out.append("*");
    }
    var.write_to(out);
    assert(out@ =~= old(out)@ + typed_var(
        types@,
        ty,
        if starred {
            "*"@ + var.text()
        } else {
            var.text()
        },
    ));
}

/// The line that announces a struct before a pointer to it is declared, or
/// nothing where `base` is no struct.
pub open spec fn forward_declaration(types: ComplexTypesView, base: Type) -> Seq<char>
    recommends
        types.has_type(base),
{
    match base {
        Type::Struct(token) => "struct "@ + type_spelling(types, base) + "; //forward decl\n"@,
        _ => Seq::empty(),
    }
}

/// The address space qualifier of a pointer of class `class`.
pub open spec fn class_qualifier(class: StorageClass) -> Seq<char> {
    match class {
        StorageClass::Uniform => "constant"@,
        _ => Seq::empty(),
    }
}

/// Whether a pointer of class `class` is declared without a qualifier: it
/// has a declaration, being no pointer to an input or an output, and its
/// class has no qualifier.
pub open spec fn is_unqualified(class: StorageClass) -> bool {
    !(class is Input) && !(class is Output) && class_qualifier(class).len() == 0
}

/// The positions below `n` of the pointers that are declared without a
/// qualifier, in rising order.
pub open spec fn unqualified_pointers(types: ComplexTypesView, n: nat) -> Seq<usize>
    decreases n,
{
    if n == 0 {
        Seq::empty()
    } else if is_unqualified(types.pointers[n - 1].class) {
        unqualified_pointers(types, (n - 1) as nat).push((n - 1) as usize)
    } else {
        unqualified_pointers(types, (n - 1) as nat)
    }
}

impl ComplexTypes {
    /// The positions of the pointers that are declared without a qualifier,
    /// in rising order. A caller may want to warn of them.
    pub fn unqualified_pointers(&self) -> (positions: Vec<usize>)
        ensures
            positions@ == unqualified_pointers(self@, self@.pointers.len()),
    {
        let ghost t = self@;
        let mut positions: Vec<usize> = Vec::new();
        let mut i: usize = 0;
        while i < self.pointers.len()
            invariant
                i <= t.pointers.len(),
                t == self@,
                self.pointers@.len() == t.pointers.len(),
                positions@ == unqualified_pointers(t, i as nat),
            decreases t.pointers.len() - i,
        {
            let decl = self.pointers.get(i);
            assert(decl@ == t.pointers[i as int]);
            proof {
                reveal_strlit("constant");
                assert(is_unqualified(decl.class) <==> decl.class is Other);
            }
            if let StorageClass::Other(_) = decl.class {
                positions.push(i);
            }
            i += 1;
        }
        positions
    }
}

/// The declaration of the pointer at position `i`.
///
/// A pointer to an input or an output has no declaration of its own: such
/// pointers are only looked through. Any other pointer is a `typedef` of its
/// pointee, with the qualifier of its class, after the announcement of the
/// pointee where that is a struct.
pub open spec fn pointer_text(types: ComplexTypesView, i: int) -> Seq<char>
    recommends
        types.wf(),
        0 <= i < types.pointers.len(),
{
    let decl = types.pointers[i];
    match decl.class {
        StorageClass::Input | StorageClass::Output => Seq::empty(),
        _ => forward_declaration(types, decl.base) + "typedef "@ + class_qualifier(decl.class)
            + " "@ + typed_var(
            types,
            decl.base,
            "*"@ + display_name(NameClass::Pointer, decl.name, i as nat),
        ) + ";\n"@,
    }
}

/// The declaration of the array at position `i`: a `typedef` of its element
/// type with the length in square brackets.
pub open spec fn array_text(types: ComplexTypesView, i: int) -> Seq<char>
    recommends
        types.wf(),
        0 <= i < types.arrays.len(),
{
    let decl = types.arrays[i];
    "typedef "@ + typed_var(
        types,
        decl.base,
        display_name(NameClass::Array, decl.name, i as nat),
    ) + "["@ + decimal(decl.length as nat) + "];\n"@
}

/// The attribute that follows a declaration with binding `binding` in a
/// place of kind `mode`: nothing where there is no binding, else the
/// resolved binding in double square brackets.
pub open spec fn attribute_text(
    map: Map<BindSource, BindTarget>,
    binding: Option<Binding>,
    mode: LocationMode,
) -> Piece {
    match binding {
        None => Ok(Seq::empty()),
        Some(binding) => match resolve(map, binding, mode) {
            Ok(resolved) => Ok(" [["@ + resolved.text() + "]]"@),
            Err(e) => Err(e),
        },
    }
}

/// One line of a struct body: a tab, the declaration `typed`, the attribute
/// `attribute` and a semicolon.
pub open spec fn declaration_line(typed: Seq<char>, attribute: Piece) -> Piece {
    match attribute {
        Ok(attribute) => Ok("\t"@ + typed + attribute + ";\n"@),
        Err(e) => Err(e),
    }
}

/// The line of the member at position `j` of a struct.
pub open spec fn member_text(
    types: ComplexTypesView,
    map: Map<BindSource, BindTarget>,
    member: StructMemberView,
    j: int,
) -> Piece {
    declaration_line(
        typed_var(types, member.ty, display_name(NameClass::Field, member.name, j as nat)),
        attribute_text(map, member.binding, LocationMode::Intermediate),
    )
}

/// The lines of the members of the struct at position `i`, by position.
pub open spec fn member_pieces(
    types: ComplexTypesView,
    map: Map<BindSource, BindTarget>,
    i: int,
) -> spec_fn(int) -> Piece {
    |j: int| member_text(types, map, types.structs[i].members[j], j)
}

/// The declaration of the struct at position `i`: its members in their
/// order, each with its binding resolved as an intermediate.
pub open spec fn struct_text(
    types: ComplexTypesView,
    map: Map<BindSource, BindTarget>,
    i: int,
) -> Piece
    recommends
        types.wf(),
        0 <= i < types.structs.len(),
{
    match join_all(types.structs[i].members.len(), member_pieces(types, map, i)) {
        Ok(body) => Ok(
            "struct "@ + display_name(NameClass::Struct, types.structs[i].name, i as nat) + " {\n"@
                + body + "};\n"@,
        ),
        Err(e) => Err(e),
    }
}

/// The declarations of the pointers, by position.
pub open spec fn pointer_pieces(types: ComplexTypesView) -> spec_fn(int) -> Seq<char> {
    |i: int| pointer_text(types, i)
}

/// The declarations of the arrays, by position.
pub open spec fn array_pieces(types: ComplexTypesView) -> spec_fn(int) -> Seq<char> {
    |i: int| array_text(types, i)
}

/// The declarations of the structs, by position.
pub open spec fn struct_pieces(types: ComplexTypesView, map: Map<BindSource, BindTarget>) -> spec_fn(
    int,
) -> Piece {
    |i: int| struct_text(types, map, i)
}

/// The declarations of all types: the pointers, the arrays, then the
/// structs, each group in the order of its arena. It fails as the first
/// struct member fails whose descriptor `map` does not hold.
pub open spec fn types_text(types: ComplexTypesView, map: Map<BindSource, BindTarget>) -> Piece
    recommends
        types.wf(),
{
    match join_all(types.structs.len(), struct_pieces(types, map)) {
        Ok(structs) => Ok(
            concat_all(types.pointers.len(), pointer_pieces(types)) + concat_all(
                types.arrays.len(),
                array_pieces(types),
            ) + structs,
        ),
        Err(e) => Err(e),
    }
}

/// Appends the declaration of the pointer at position `i` to `out`.
fn write_pointer(out: &mut String, types: &ComplexTypes, i: usize)
    requires
        types@.wf(),
        i < types@.pointers.len(),
    ensures
        final(out)@ == old(out)@ + pointer_text(types@, i as int),
{
    let decl = types.pointers.get(i);
    assert(decl@ == types@.pointers[i as int]);
    assert(types@.has_type(types@.pointers[i as int].base));
    let qualifier = match decl.class {
        StorageClass::Input | StorageClass::Output => {
            assert(out@ =~= old(out)@ + pointer_text(types@, i as int));
            return ;
        },
        StorageClass::Uniform => "constant",
        StorageClass::Other(_) => "",
    };
    proof {
        reveal_strlit("");
        assert(qualifier@ =~= class_qualifier(decl.class));
    }
    if let Type::Struct(_) = decl.base {
        out.append("struct ");
        write_type_spelling(out, types, decl.base);
        out.append("; //forward decl\n");
    }
    let ghost mut done = forward_declaration(types@, decl.base);
    assert(out@ =~= old(out)@ + done);
    out.append("typedef ");
    proof {
        assert(out@ =~= old(out)@ + (done + "typedef "@));
        done = done + "typedef "@;
    }
    out.append(qualifier);
    proof {
        assert(out@ =~= old(out)@ + (done + qualifier@));
        done = done + qualifier@;
    }
    out.append(" ");
    proof {
        assert(out@ =~= old(out)@ + (done + " "@));
        done = done + " "@;
    }
    let name = Name::or_index(&decl.name, NameClass::Pointer, i);
    write_typed_var(out, types, decl.base, &name, true);
    proof {
        let typed = typed_var(types@, decl.base, "*"@ + name.text());
        assert(out@ =~= old(out)@ + (done + typed));
        done = done + typed;
    }
    out.append(";\n");
    proof {
        assert(out@ =~= old(out)@ + (done + ";\n"@));
        done = done + ";\n"@;
    }
    assert(done == pointer_text(types@, i as int));
}

/// Appends the declaration of the array at position `i` to `out`.
fn write_array(out: &mut String, types: &ComplexTypes, i: usize)
    requires
        types@.wf(),
        i < types@.arrays.len(),
    ensures
        final(out)@ == old(out)@ + array_text(types@, i as int),
{
    let decl = types.arrays.get(i);
    assert(decl@ == types@.arrays[i as int]);
    assert(types@.has_type(types@.arrays[i as int].base));
    out.append("typedef ");
    let name = Name::or_index(&decl.name, NameClass::Array, i);
    write_typed_var(out, types, decl.base, &name, false);
    out.append("[");
    push_decimal(out, decl.length as u64);
    out.append("];\n");
    assert(out@ =~= old(out)@ + array_text(types@, i as int));
}

/// Appends the attribute of `binding` in a place of kind `mode` to `out`, or
/// fails where the binding cannot be resolved.
pub(crate) fn write_attribute(
    out: &mut String,
    options: &Options,
    binding: &Option<Binding>,
    mode: LocationMode,
) -> (done: Result<(), Error>)
    ensures
        match attribute_text(options.binding_map@, *binding, mode) {
            Ok(text) => done is Ok && final(out)@ == old(out)@ + text,
            Err(e) => done == Err::<(), Error>(e),
        },
{
    if let Some(binding) = binding {
        match options.resolve_binding(binding, mode) {
            Ok(resolved) => {
                out.append(" [[");
                resolved.write_to(out);
                out.append("]]");
                assert(out@ =~= old(out)@ + (" [["@ + resolved.text() + "]]"@));
            },
            Err(e) => {
                return Err(e);
            },
        }
    } else {
        assert(out@ =~= old(out)@ + Seq::<char>::empty());
    }
    Ok(())
}

/// Appends the line of `member`, the member at position `j` of its struct.
fn write_member(
    out: &mut String,
    types: &ComplexTypes,
    options: &Options,
    member: &StructMember,
    j: usize,
) -> (done: Result<(), Error>)
    requires
        types@.has_type(member.ty),
    ensures
        match member_text(types@, options.binding_map@, member@, j as int) {
            Ok(text) => done is Ok && final(out)@ == old(out)@ + text,
            Err(e) => done == Err::<(), Error>(e),
        },
{
    out.append("\t");
    let name = Name::or_index(&member.name, NameClass::Field, j);
    write_typed_var(out, types, member.ty, &name, false);
    let ghost typed = typed_var(
        types@,
        member.ty,
        display_name(NameClass::Field, member@.name, j as nat),
    );
    assert(out@ =~= old(out)@ + ("\t"@ + typed));
    match write_attribute(out, options, &member.binding, LocationMode::Intermediate) {
        Ok(()) => {},
        Err(e) => {
            return Err(e);
        },
    }
    out.append(";\n");
    proof {
        let attribute = attribute_text(
            options.binding_map@,
            member.binding,
            LocationMode::Intermediate,
        ).unwrap();
        assert(out@ =~= old(out)@ + ("\t"@ + typed + attribute + ";\n"@));
    }
    Ok(())
}

/// Appends the declaration of the struct at position `i` to `out`.
fn write_struct(out: &mut String, types: &ComplexTypes, options: &Options, i: usize) -> (done:
    Result<(), Error>)
    requires
        types@.wf(),
        i < types@.structs.len(),
    ensures
        match struct_text(types@, options.binding_map@, i as int) {
            Ok(text) => done is Ok && final(out)@ == old(out)@ + text,
            Err(e) => done == Err::<(), Error>(e),
        },
{
    let decl = types.structs.get(i);
    assert(decl@ == types@.structs[i as int]);
    let ghost pieces = member_pieces(types@, options.binding_map@, i as int);
    let ghost count = decl@.members.len();
    out.append("struct ");
    Name::or_index(&decl.name, NameClass::Struct, i).write_to(out);
    out.append(" {\n");
    let ghost head = out@;
    let ghost mut body = Seq::<char>::empty();
    assert(head =~= old(out)@ + ("struct "@ + display_name(
        NameClass::Struct,
        decl@.name,
        i as nat,
    ) + " {\n"@));
    let mut j: usize = 0;
    while j < decl.members.len()
        invariant
            j <= decl.members.len(),
            count == decl.members.len(),
            types@.wf(),
            i < types@.structs.len(),
            decl@ == types@.structs[i as int],
            pieces == member_pieces(types@, options.binding_map@, i as int),
            join_all(j as nat, pieces) == Ok::<Seq<char>, Error>(body),
            out@ == head + body,
        decreases decl.members.len() - j,
    {
        let member = &decl.members[j];
        assert(member@ == decl@.members[j as int]);
        assert(types@.has_type(types@.structs[i as int].members[j as int].ty));
        let ghost before = out@;
        match write_member(out, types, options, member, j) {
            Ok(()) => {},
            Err(e) => {
                proof {
                    assert(pieces(j as int) == Err::<Seq<char>, Error>(e));
                    assert(join_all((j + 1) as nat, pieces) == Err::<Seq<char>, Error>(e));
                    lemma_join_all_stays_failed((j + 1) as nat, count, pieces);
                }
                return Err(e);
            },
        }
        proof {
            let piece = pieces(j as int).unwrap();
            assert(out@ == before + piece);
            assert(join_all((j + 1) as nat, pieces) == Ok::<Seq<char>, Error>(body + piece));
            assert(out@ =~= head + (body + piece));
            body = body + piece;
        }
        j += 1;
    }
    out.append("};\n");
    assert(out@ =~= old(out)@ + ("struct "@ + display_name(
        NameClass::Struct,
        decl@.name,
        i as nat,
    ) + " {\n"@ + body + "};\n"@));
    Ok(())
}

/// Appends the declarations of all types to `out`, or fails as the first
/// struct member fails whose binding cannot be resolved. Where it fails, `out`
/// is left with unfinished declarations.
pub(crate) fn write_types(out: &mut String, types: &ComplexTypes, options: &Options) -> (done: Result<
    (),
    Error,
>)
    requires
        types@.wf(),
    ensures
        match types_text(types@, options.binding_map@) {
            Ok(text) => done is Ok && final(out)@ == old(out)@ + text,
            Err(e) => done == Err::<(), Error>(e),
        },
{
    let ghost start = out@;
    let ghost mut pointers = Seq::<char>::empty();
    let mut i: usize = 0;
    while i < types.pointers.len()
        invariant
            i <= types@.pointers.len(),
            types.pointers@.len() == types@.pointers.len(),
            types@.wf(),
            pointers == concat_all(i as nat, pointer_pieces(types@)),
            out@ == start + pointers,
        decreases types@.pointers.len() - i,
    {
        write_pointer(out, types, i);
        proof {
            let piece = pointer_text(types@, i as int);
            assert(out@ =~= start + (pointers + piece));
            pointers = pointers + piece;
        }
        i += 1;
    }
    let ghost mut arrays = Seq::<char>::empty();
    let mut i: usize = 0;
    while i < types.arrays.len()
        invariant
            i <= types@.arrays.len(),
            types.arrays@.len() == types@.arrays.len(),
            types@.wf(),
            arrays == concat_all(i as nat, array_pieces(types@)),
            out@ == start + pointers + arrays,
        decreases types@.arrays.len() - i,
    {
        write_array(out, types, i);
        proof {
            let piece = array_text(types@, i as int);
            assert(out@ =~= start + pointers + (arrays + piece));
            arrays = arrays + piece;
        }
        i += 1;
    }
    let ghost pieces = struct_pieces(types@, options.binding_map@);
    let ghost count = types@.structs.len();
    let ghost mut structs = Seq::<char>::empty();
    let mut i: usize = 0;
    while i < types.structs.len()
        invariant
            i <= types@.structs.len(),
            types.structs@.len() == types@.structs.len(),
            count == types@.structs.len(),
            types@.wf(),
            pieces == struct_pieces(types@, options.binding_map@),
            join_all(i as nat, pieces) == Ok::<Seq<char>, Error>(structs),
            out@ == start + pointers + arrays + structs,
        decreases types@.structs.len() - i,
    {
        match write_struct(out, types, options, i) {
            Ok(()) => {},
            Err(e) => {
                proof {
                    assert(pieces(i as int) == Err::<Seq<char>, Error>(e));
                    assert(join_all((i + 1) as nat, pieces) == Err::<Seq<char>, Error>(e));
                    lemma_join_all_stays_failed((i + 1) as nat, count, pieces);
                }
                return Err(e);
            },
        }
        proof {
            let piece = pieces(i as int).unwrap();
            assert(join_all((i + 1) as nat, pieces) == Ok::<Seq<char>, Error>(structs + piece));
            assert(out@ =~= start + pointers + arrays + (structs + piece));
            structs = structs + piece;
        }
        i += 1;
    }
    assert(out@ =~= old(out)@ + (pointers + arrays + structs));
    Ok(())
}

} // verus!
