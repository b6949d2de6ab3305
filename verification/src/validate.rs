//! The check that a module is well formed: that every handle in it names an
//! entry of the arena it belongs to, and that every storage class and stage
//! is written in its one way. A translation asks for such a module.

use crate::arena::Token;
use crate::ir::{
    ComplexTypes, EntryPoint, ExecutionModel, Expression, Function, GlobalVariable, Module,
    StorageClass, Type,
};
use vstd::prelude::*;

verus! {

impl StorageClass {
    /// Whether `Other` is not used for a class that has a name.
    pub fn validate(&self) -> (valid: bool)
        ensures
            valid == self.wf(),
    {
        match *self {
            StorageClass::Other(number) => number != 1 && number != 2 && number != 3,
            _ => true,
        }
    }
}

impl ExecutionModel {
    /// Whether `Other` is not used for a stage that has a name.
    pub fn validate(&self) -> (valid: bool)
        ensures
            valid == self.wf(),
    {
        match *self {
            ExecutionModel::Other(number) => number != 0 && number != 4 && number != 5,
            _ => true,
        }
    }
}

impl ComplexTypes {
    /// Whether every declaration that `ty` names is present.
    pub fn has_type(&self, ty: Type) -> (present: bool)
        ensures
            present == self@.has_type(ty),
    {
        match ty {
            Type::Pointer(token) => token.index() < self.pointers.len(),
            Type::Array(token) => token.index() < self.arrays.len(),
            Type::Struct(token) => token.index() < self.structs.len(),
            _ => true,
        }
    }

    /// Whether every type that a declaration mentions is itself declared,
    /// and the class of every pointer is written in its one way.
    pub fn validate(&self) -> (valid: bool)
        ensures
            valid == self@.wf(),
    {
        let ghost t = self@;
        let mut i: usize = 0;
        while i < self.pointers.len()
            invariant
                i <= t.pointers.len(),
                t == self@,
                self.pointers@.len() == t.pointers.len(),
                forall|k: int| 0 <= k < i ==> t.has_type(#[trigger] t.pointers[k].base),
                forall|k: int| 0 <= k < i ==> (#[trigger] t.pointers[k].class).wf(),
            decreases t.pointers.len() - i,
        {
            let decl = self.pointers.get(i);
            assert(decl@ == t.pointers[i as int]);
            if !self.has_type(decl.base) {
                assert(!t.has_type(t.pointers[i as int].base));
                return false;
            }
            if !decl.class.validate() {
                assert(!t.pointers[i as int].class.wf());
                return false;
            }
            i += 1;
        }
        let mut i: usize = 0;
        while i < self.arrays.len()
            invariant
                i <= t.arrays.len(),
                t == self@,
                self.arrays@.len() == t.arrays.len(),
                forall|k: int| 0 <= k < i ==> t.has_type(#[trigger] t.arrays[k].base),
            decreases t.arrays.len() - i,
        {
            let decl = self.arrays.get(i);
            assert(decl@ == t.arrays[i as int]);
            if !self.has_type(decl.base) {
                assert(!t.has_type(t.arrays[i as int].base));
                return false;
            }
            i += 1;
        }
        let mut i: usize = 0;
        while i < self.structs.len()
            invariant
                i <= t.structs.len(),
                t == self@,
                self.structs@.len() == t.structs.len(),
                forall|k: int, j: int|
                    0 <= k < i && 0 <= j < t.structs[k].members.len() ==> t.has_type(
                        #[trigger] t.structs[k].members[j].ty,
                    ),
            decreases t.structs.len() - i,
        {
            let decl = self.structs.get(i);
            assert(decl@ == t.structs[i as int]);
            let mut j: usize = 0;
            while j < decl.members.len()
                invariant
                    j <= decl.members.len(),
                    t == self@,
                    0 <= i < t.structs.len(),
                    decl@ == t.structs[i as int],
                    forall|l: int|
                        0 <= l < j ==> t.has_type(#[trigger] t.structs[i as int].members[l].ty),
                decreases decl.members.len() - j,
            {
                let member = &decl.members[j];
                assert(member@ == t.structs[i as int].members[j as int]);
                if !self.has_type(member.ty) {
                    assert(!t.has_type(t.structs[i as int].members[j as int].ty));
                    return false;
                }
                j += 1;
            }
            i += 1;
        }
        true
    }
}

impl Module {
    /// Whether `token` names a global variable of the module.
    pub fn has_global(&self, token: Token<GlobalVariable>) -> (present: bool)
        ensures
            present == self@.has_global(token),
    {
        token.index() < self.global_variables.len()
    }

    /// Whether every handle in `tokens` names a global variable of the
    /// module.
    fn has_globals(&self, tokens: &Vec<Token<GlobalVariable>>) -> (present: bool)
        ensures
            present == forall|j: int| 0 <= j < tokens@.len() ==> self@.has_global(#[trigger] tokens@[j]),
    {
        let mut j: usize = 0;
        while j < tokens.len()
            invariant
                j <= tokens.len(),
                forall|l: int| 0 <= l < j ==> self@.has_global(#[trigger] tokens@[l]),
            decreases tokens.len() - j,
        {
            if !self.has_global(tokens[j]) {
                assert(!self@.has_global(tokens@[j as int]));
                return false;
            }
            j += 1;
        }
        true
    }

    /// Whether `function` mentions only types and variables of the module.
    fn validate_function(&self, function: &Function) -> (valid: bool)
        ensures
            valid == self@.function_wf(function@),
    {
        let ghost m = self@;
        let ghost f = function@;
        if !self.complex_types.has_type(function.return_type) {
            return false;
        }
        let mut j: usize = 0;
        while j < function.parameter_types.len()
            invariant
                j <= function.parameter_types.len(),
                m == self@,
                f == function@,
                forall|l: int| 0 <= l < j ==> m.complex_types.has_type(#[trigger] f.parameter_types[l]),
            decreases function.parameter_types.len() - j,
        {
            if !self.complex_types.has_type(function.parameter_types[j]) {
                assert(!m.complex_types.has_type(f.parameter_types[j as int]));
                return false;
            }
            j += 1;
        }
        let count = function.expressions.len();
        let mut j: usize = 0;
        while j < count
            invariant
                j <= count,
                count == f.expressions.len(),
                m == self@,
                f == function@,
                forall|l: int|
                    0 <= l < j ==> (#[trigger] f.expressions[l] matches Expression::GlobalVariable(
                        token,
                    ) ==> m.has_global(token)),
            decreases count - j,
        {
            let expression = function.expressions.get(j);
            assert(*expression == f.expressions[j as int]);
            if let Expression::GlobalVariable(token) = *expression {
                if !self.has_global(token) {
                    return false;
                }
            }
            j += 1;
        }
        true
    }

    /// Whether `entry` names a function and variables of the module.
    fn validate_entry_point(&self, entry: &EntryPoint) -> (valid: bool)
        ensures
            valid == self@.entry_point_wf(entry@),
    {
        assert(self@.functions.len() == self.functions@.len());
        if !entry.exec_model.validate() || entry.function.index() >= self.functions.len() {
            return false;
        }
        let inputs = self.has_globals(&entry.inputs);
        let outputs = self.has_globals(&entry.outputs);
        assert(entry@.inputs == entry.inputs@ && entry@.outputs == entry.outputs@);
        inputs && outputs
    }

    /// Whether the module is well formed: whether every handle in it names an
    /// entry of the arena it belongs to, and every storage class and stage is
    /// written in its one way.
    pub fn validate(&self) -> (valid: bool)
        ensures
            valid == self@.wf(),
    {
        let ghost m = self@;
        if !self.complex_types.validate() {
            return false;
        }
        let mut i: usize = 0;
        while i < self.global_variables.len()
            invariant
                i <= m.global_variables.len(),
                m == self@,
                self.global_variables@.len() == m.global_variables.len(),
                forall|k: int|
                    0 <= k < i ==> m.complex_types.has_type(#[trigger] m.global_variables[k].ty),
                forall|k: int| 0 <= k < i ==> (#[trigger] m.global_variables[k].class).wf(),
            decreases m.global_variables.len() - i,
        {
            let variable = self.global_variables.get(i);
            assert(variable@ == m.global_variables[i as int]);
            if !self.complex_types.has_type(variable.ty) {
                assert(!m.complex_types.has_type(m.global_variables[i as int].ty));
                return false;
            }
            if !variable.class.validate() {
                assert(!m.global_variables[i as int].class.wf());
                return false;
            }
            i += 1;
        }
        let mut i: usize = 0;
        while i < self.functions.len()
            invariant
                i <= m.functions.len(),
                m == self@,
                self.functions@.len() == m.functions.len(),
                forall|k: int| 0 <= k < i ==> m.function_wf(#[trigger] m.functions[k]),
            decreases m.functions.len() - i,
        {
            let function = self.functions.get(i);
            assert(function@ == m.functions[i as int]);
            if !self.validate_function(function) {
                assert(!m.function_wf(m.functions[i as int]));
                return false;
            }
            i += 1;
        }
        let mut i: usize = 0;
        while i < self.entry_points.len()
            invariant
                i <= m.entry_points.len(),
                m == self@,
                self.entry_points@.len() == m.entry_points.len(),
                forall|k: int| 0 <= k < i ==> m.entry_point_wf(#[trigger] m.entry_points[k]),
            decreases m.entry_points.len() - i,
        {
            let entry = &self.entry_points[i];
            assert(entry@ == m.entry_points[i as int]);
            if !self.validate_entry_point(entry) {
                assert(!m.entry_point_wf(m.entry_points[i as int]));
                return false;
            }
            i += 1;
        }
        true
    }
}

} // verus!
