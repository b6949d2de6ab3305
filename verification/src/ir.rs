//! The shader module that the backend consumes: arenas of declarations that
//! refer to each other by [`Token`], and the mathematical view of each.

use crate::arena::{Arena, Token};
use vstd::prelude::*;

verus! {

/// The interpretation of a scalar's bits.
#[derive(Clone, Copy, Debug, PartialEq, Eq)]
pub enum ScalarKind {
    Sint,
    Uint,
    Float,
}

/// The number of components of a vector, or of rows or columns of a matrix.
#[derive(Clone, Copy, Debug, PartialEq, Eq)]
pub enum VectorSize {
    Bi,
    Tri,
    Quad,
}

/// Where a pointer points, or where a global variable lives.
///
/// The backend tells three classes apart. Every other class travels as
/// `Other`, with the number that SPIR-V gives it. SPIR-V numbers the input
/// class 1, the uniform class 2 and the output class 3, so `Other` holds none
/// of these numbers: each class is written in one way only.
#[derive(Clone, Copy, Debug, PartialEq, Eq)]
pub enum StorageClass {
    Input,
    Output,
    Uniform,
    Other(u32),
}

impl StorageClass {
    /// Whether `Other` is not used for a class that has a name.
    pub open spec fn wf(self) -> bool {
        self matches StorageClass::Other(number) ==> number != 1 && number != 2 && number != 3
    }
}

/// A value that the pipeline itself provides or consumes.
#[derive(Clone, Copy, Debug, PartialEq, Eq)]
pub enum BuiltIn {
    ClipDistance,
    PointSize,
    Position,
}

/// The pipeline stage that an entry point is written for.
///
/// The backend has a keyword for three stages. Every other stage travels as
/// `Other`, with the number that SPIR-V gives it. SPIR-V numbers the vertex
/// stage 0, the fragment stage 4 and the compute stage 5, so `Other` holds
/// none of these numbers: each stage is written in one way only, and two
/// stages are the same stage exactly if they are equal.
#[derive(Clone, Copy, Debug, PartialEq, Eq, Structural)]
pub enum ExecutionModel {
    Vertex,
    Fragment,
    GLCompute,
    Other(u32),
}

impl ExecutionModel {
    /// Whether `Other` is not used for a stage that has a name.
    pub open spec fn wf(self) -> bool {
        self matches ExecutionModel::Other(number) ==> number != 0 && number != 4 && number != 5
    }
}

/// How a variable or a struct member is tied to the outside of the shader.
#[derive(Clone, Copy, Debug, PartialEq, Eq)]
pub enum Binding {
    BuiltIn(BuiltIn),
    Location(u32),
    Descriptor { set: u32, binding: u32 },
}

/// A type of the module. Pointers, arrays and structs are declared in the
/// arenas of [`ComplexTypes`] and referred to by handle.
#[derive(Clone, Copy, Debug, PartialEq, Eq)]
pub enum Type {
    Void,
    Scalar { kind: ScalarKind },
    Vector { size: VectorSize, kind: ScalarKind },
    Matrix { columns: VectorSize, rows: VectorSize, kind: ScalarKind },
    Pointer(Token<PointerDeclaration>),
    Array(Token<ArrayDeclaration>),
    Struct(Token<StructDeclaration>),
}

/// The view of an optional name: its characters, if there is one.
pub open spec fn name_view(name: Option<String>) -> Option<Seq<char>> {
    match name {
        Some(s) => Some(s@),
        None => None,
    }
}

#[derive(Debug, PartialEq, Eq)]
pub struct PointerDeclaration {
    pub base: Type,
    pub class: StorageClass,
    pub name: Option<String>,
}

pub struct PointerDeclarationView {
    pub base: Type,
    pub class: StorageClass,
    pub name: Option<Seq<char>>,
}

impl View for PointerDeclaration {
    type V = PointerDeclarationView;

    open spec fn view(&self) -> PointerDeclarationView {
        PointerDeclarationView { base: self.base, class: self.class, name: name_view(self.name) }
    }
}

#[derive(Debug, PartialEq, Eq)]
pub struct ArrayDeclaration {
    pub base: Type,
    pub length: u32,
    pub name: Option<String>,
}

pub struct ArrayDeclarationView {
    pub base: Type,
    pub length: u32,
    pub name: Option<Seq<char>>,
}

impl View for ArrayDeclaration {
    type V = ArrayDeclarationView;

    open spec fn view(&self) -> ArrayDeclarationView {
        ArrayDeclarationView { base: self.base, length: self.length, name: name_view(self.name) }
    }
}

#[derive(Debug, PartialEq, Eq)]
pub struct StructMember {
    pub name: Option<String>,
    pub binding: Option<Binding>,
    pub ty: Type,
}

pub struct StructMemberView {
    pub name: Option<Seq<char>>,
    pub binding: Option<Binding>,
    pub ty: Type,
}

impl View for StructMember {
    type V = StructMemberView;

    open spec fn view(&self) -> StructMemberView {
        StructMemberView { name: name_view(self.name), binding: self.binding, ty: self.ty }
    }
}

#[derive(Debug, PartialEq, Eq)]
pub struct StructDeclaration {
    pub name: Option<String>,
    pub members: Vec<StructMember>,
}

pub struct StructDeclarationView {
    pub name: Option<Seq<char>>,
    pub members: Seq<StructMemberView>,
}

impl View for StructDeclaration {
    type V = StructDeclarationView;

    open spec fn view(&self) -> StructDeclarationView {
        StructDeclarationView {
            name: name_view(self.name),
            members: self.members@.map_values(|m: StructMember| m@),
        }
    }
}

/// The declarations of the types that are not spelled by a keyword.
#[derive(Debug, PartialEq, Eq)]
pub struct ComplexTypes {
    pub pointers: Arena<PointerDeclaration>,
    pub arrays: Arena<ArrayDeclaration>,
    pub structs: Arena<StructDeclaration>,
}

pub struct ComplexTypesView {
    pub pointers: Seq<PointerDeclarationView>,
    pub arrays: Seq<ArrayDeclarationView>,
    pub structs: Seq<StructDeclarationView>,
}

impl View for ComplexTypes {
    type V = ComplexTypesView;

    open spec fn view(&self) -> ComplexTypesView {
        ComplexTypesView {
            pointers: self.pointers@.map_values(|d: PointerDeclaration| d@),
            arrays: self.arrays@.map_values(|d: ArrayDeclaration| d@),
            structs: self.structs@.map_values(|d: StructDeclaration| d@),
        }
    }
}

impl ComplexTypesView {
    /// Whether every declaration that `ty` names is present.
    pub open spec fn has_type(self, ty: Type) -> bool {
        match ty {
            Type::Pointer(token) => token.id() < self.pointers.len(),
            Type::Array(token) => token.id() < self.arrays.len(),
            Type::Struct(token) => token.id() < self.structs.len(),
            _ => true,
        }
    }

    /// Whether every type that a declaration mentions is itself declared,
    /// and the class of every pointer is written in its one way.
    pub open spec fn wf(self) -> bool {
        &&& forall|i: int| 0 <= i < self.pointers.len() ==> self.has_type(#[trigger] self.pointers[i].base)
        &&& forall|i: int| 0 <= i < self.pointers.len() ==> (#[trigger] self.pointers[i].class).wf()
        &&& forall|i: int| 0 <= i < self.arrays.len() ==> self.has_type(#[trigger] self.arrays[i].base)
        &&& forall|i: int, j: int|
            0 <= i < self.structs.len() && 0 <= j < self.structs[i].members.len() ==> self.has_type(
                #[trigger] self.structs[i].members[j].ty,
            )
    }
}

#[derive(Debug, PartialEq, Eq)]
pub struct GlobalVariable {
    pub name: Option<String>,
    pub class: StorageClass,
    pub binding: Option<Binding>,
    pub ty: Type,
}

pub struct GlobalVariableView {
    pub name: Option<Seq<char>>,
    pub class: StorageClass,
    pub binding: Option<Binding>,
    pub ty: Type,
}

impl View for GlobalVariable {
    type V = GlobalVariableView;

    open spec fn view(&self) -> GlobalVariableView {
        GlobalVariableView {
            name: name_view(self.name),
            class: self.class,
            binding: self.binding,
            ty: self.ty,
        }
    }
}

/// A node of a function's body. The backend reads the references to global
/// variables and passes over everything else.
#[derive(Clone, Copy, Debug, PartialEq, Eq)]
pub enum Expression {
    GlobalVariable(Token<GlobalVariable>),
    Other,
}

#[derive(Debug, PartialEq, Eq)]
pub struct Function {
    pub name: Option<String>,
    pub parameter_types: Vec<Type>,
    pub return_type: Type,
    pub expressions: Arena<Expression>,
}

pub struct FunctionView {
    pub name: Option<Seq<char>>,
    pub parameter_types: Seq<Type>,
    pub return_type: Type,
    pub expressions: Seq<Expression>,
}

impl View for Function {
    type V = FunctionView;

    open spec fn view(&self) -> FunctionView {
        FunctionView {
            name: name_view(self.name),
            parameter_types: self.parameter_types@,
            return_type: self.return_type,
            expressions: self.expressions@,
        }
    }
}

/// A function that the pipeline may start, with the stage it is written for
/// and the global variables through which it receives and returns its data.
///
/// The variables are kept in the order in which they were declared.
#[derive(Debug, PartialEq, Eq)]
pub struct EntryPoint {
    pub exec_model: ExecutionModel,
    pub function: Token<Function>,
    pub inputs: Vec<Token<GlobalVariable>>,
    pub outputs: Vec<Token<GlobalVariable>>,
}

pub struct EntryPointView {
    pub exec_model: ExecutionModel,
    pub function: Token<Function>,
    pub inputs: Seq<Token<GlobalVariable>>,
    pub outputs: Seq<Token<GlobalVariable>>,
}

impl View for EntryPoint {
    type V = EntryPointView;

    open spec fn view(&self) -> EntryPointView {
        EntryPointView {
            exec_model: self.exec_model,
            function: self.function,
            inputs: self.inputs@,
            outputs: self.outputs@,
        }
    }
}

/// A whole shader module.
#[derive(Debug, PartialEq, Eq)]
pub struct Module {
    pub complex_types: ComplexTypes,
    pub global_variables: Arena<GlobalVariable>,
    pub functions: Arena<Function>,
    pub entry_points: Vec<EntryPoint>,
}

pub struct ModuleView {
    pub complex_types: ComplexTypesView,
    pub global_variables: Seq<GlobalVariableView>,
    pub functions: Seq<FunctionView>,
    pub entry_points: Seq<EntryPointView>,
}

impl View for Module {
    type V = ModuleView;

    open spec fn view(&self) -> ModuleView {
        ModuleView {
            complex_types: self.complex_types@,
            global_variables: self.global_variables@.map_values(|v: GlobalVariable| v@),
            functions: self.functions@.map_values(|f: Function| f@),
            entry_points: self.entry_points@.map_values(|e: EntryPoint| e@),
        }
    }
}

impl ModuleView {
    /// Whether `token` names a global variable of the module.
    pub open spec fn has_global(self, token: Token<GlobalVariable>) -> bool {
        token.id() < self.global_variables.len()
    }

    /// Whether function `f` mentions only types and variables of the module.
    pub open spec fn function_wf(self, f: FunctionView) -> bool {
        &&& self.complex_types.has_type(f.return_type)
        &&& forall|j: int|
            0 <= j < f.parameter_types.len() ==> self.complex_types.has_type(
                #[trigger] f.parameter_types[j],
            )
        &&& forall|j: int|
            0 <= j < f.expressions.len() ==> (#[trigger] f.expressions[j] matches Expression::GlobalVariable(
                token,
            ) ==> self.has_global(token))
    }

    /// Whether entry point `e` names a function and variables of the module,
    /// and its stage is written in its one way.
    pub open spec fn entry_point_wf(self, e: EntryPointView) -> bool {
        &&& e.exec_model.wf()
        &&& e.function.id() < self.functions.len()
        &&& forall|j: int| 0 <= j < e.inputs.len() ==> self.has_global(#[trigger] e.inputs[j])
        &&& forall|j: int| 0 <= j < e.outputs.len() ==> self.has_global(#[trigger] e.outputs[j])
    }

    /// Whether every handle in the module names an entry of the arena it
    /// belongs to, and every storage class and stage is written in its one
    /// way.
    pub open spec fn wf(self) -> bool {
        &&& self.complex_types.wf()
        &&& forall|i: int|
            0 <= i < self.global_variables.len() ==> self.complex_types.has_type(
                #[trigger] self.global_variables[i].ty,
            )
        &&& forall|i: int|
            0 <= i < self.global_variables.len() ==> (#[trigger] self.global_variables[i].class).wf()
        &&& forall|i: int| 0 <= i < self.functions.len() ==> self.function_wf(#[trigger] self.functions[i])
        &&& forall|i: int|
            0 <= i < self.entry_points.len() ==> self.entry_point_wf(#[trigger] self.entry_points[i])
    }
}

} // verus!
