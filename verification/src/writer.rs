//! The whole translation: a fixed preamble, the declarations of the types,
//! and the functions, in one pass over the module.

use crate::binding::{BindSource, BindTarget, Options};
use crate::error::Error;
use crate::function::{function_text, lemma_marks_start, marks, write_function};
use crate::ir::{Module, ModuleView};
use crate::join::{join_all, lemma_join_all_stays_failed, Piece};
use crate::types::{types_text, write_types};
use vstd::prelude::*;
use vstd::string::*;

verus! {

/// The lines that every translation begins with, and the empty line after
/// them.
pub open spec fn preamble() -> Seq<char> {
    "#include <metal_stdlib>\n"@ + "#include <simd/simd.h>\n"@ + "using namespace metal;\n"@
        + "\n"@
}

/// The texts of the functions of the module, by position.
pub open spec fn function_pieces(m: ModuleView, map: Map<BindSource, BindTarget>) -> spec_fn(
    int,
) -> Piece {
    |f: int| function_text(m, map, f)
}

/// The translation of module `m` under the binding table `map`: the
/// preamble, the declarations of the types, an empty line, and the functions
/// in the order of their arena. It fails as the first thing fails that cannot
/// be written: a member of a struct first, then the functions in their order.
pub open spec fn module_text(m: ModuleView, map: Map<BindSource, BindTarget>) -> Piece {
    match types_text(m.complex_types, map) {
        Err(e) => Err(e),
        Ok(types) => match join_all(m.functions.len(), function_pieces(m, map)) {
            Err(e) => Err(e),
            Ok(functions) => Ok(preamble() + types + "\n"@ + functions),
        },
    }
}

/// A list of `n` marks, none of them set.
fn unmarked(n: usize) -> (marks: Vec<bool>)
    ensures
        marks@ == Seq::new(n as nat, |v: int| false),
{
    let mut marks: Vec<bool> = Vec::new();
    let mut i: usize = 0;
    while i < n
        invariant
            i <= n,
            marks@ == Seq::new(i as nat, |v: int| false),
        decreases n - i,
    {
        marks.push(false);
        assert(marks@ =~= Seq::new((i + 1) as nat, |v: int| false));
        i += 1;
    }
    marks
}

/// Appends the preamble to `out`.
fn write_preamble(out: &mut String)
    ensures
        final(out)@ == old(out)@ + preamble(),
{
    out.append("#include <metal_stdlib>\n");
    out.append("#include <simd/simd.h>\n");
    out.append("using namespace metal;\n");
    out.append("\n");
    assert(out@ =~= old(out)@ + preamble());
}

/// Appends the functions of `module` to `out`, or fails as the first of
/// them fails.
fn write_functions(out: &mut String, module: &Module, options: &Options) -> (done: Result<
    (),
    Error,
>)
    requires
        module@.wf(),
    ensures
        match join_all(module@.functions.len(), function_pieces(module@, options.binding_map@)) {
            Ok(text) => done is Ok && final(out)@ == old(out)@ + text,
            Err(e) => done == Err::<(), Error>(e),
        },
{
    let ghost m = module@;
    let ghost pieces = function_pieces(m, options.binding_map@);
    let ghost mut functions = Seq::<char>::empty();
    assert(out@ =~= old(out)@ + functions);
    let mut used = unmarked(module.global_variables.len());
    proof {
        lemma_marks_start(m);
    }
    let count = module.functions.len();
    let mut f: usize = 0;
    while f < count
        invariant
            f <= count,
            count == m.functions.len(),
            m == module@,
            m.wf(),
            pieces == function_pieces(m, options.binding_map@),
            used@ == marks(m, f as int, 0),
            join_all(f as nat, pieces) == Ok::<Seq<char>, Error>(functions),
            out@ == old(out)@ + functions,
        decreases count - f,
    {
        match write_function(out, module, options, f, &mut used) {
            Ok(()) => {},
            Err(e) => {
                proof {
                    assert(pieces(f as int) == Err::<Seq<char>, Error>(e));
                    assert(join_all((f + 1) as nat, pieces) == Err::<Seq<char>, Error>(e));
                    lemma_join_all_stays_failed((f + 1) as nat, count as nat, pieces);
                }
                return Err(e);
            },
        }
        proof {
            let piece = pieces(f as int).unwrap();
            assert(join_all((f + 1) as nat, pieces) == Ok::<Seq<char>, Error>(functions + piece));
            assert(out@ =~= old(out)@ + (functions + piece));
            functions = functions + piece;
        }
        f += 1;
    }
    Ok(())
}

/// Translates `module` under `options`.
///
/// The result is the text that [`module_text`] gives, or the failure that it
/// gives. Nothing of a failed translation is handed out.
pub fn write_string(module: &Module, options: Options) -> (result: Result<String, Error>)
    requires
        module@.wf(),
    ensures
        match module_text(module@, options.binding_map@) {
            Ok(text) => result matches Ok(s) && s@ == text,
            Err(e) => result == Err::<String, Error>(e),
        },
{
    let ghost m = module@;
    let ghost map = options.binding_map@;
    let mut out = String::new();
    write_preamble(&mut out);
    assert(out@ =~= preamble());
    match write_types(&mut out, &module.complex_types, &options) {
        Ok(()) => {},
        Err(e) => {
            return Err(e);
        },
    }
    out.append("\n");
    let ghost types = types_text(m.complex_types, map).unwrap();
    assert(out@ =~= preamble() + types + "\n"@);
    match write_functions(&mut out, module, &options) {
        Ok(()) => {},
        Err(e) => {
            return Err(e);
        },
    }
    Ok(out)
}

/// A text under construction, to which translations are added.
pub struct Writer {
    out: String,
}

impl View for Writer {
    type V = Seq<char>;

    closed spec fn view(&self) -> Seq<char> {
        self.out@
    }
}

impl Writer {
    /// A writer that continues the text `out`.
    pub fn new(out: String) -> (writer: Self)
        ensures
            writer@ == out@,
    {
        Writer { out }
    }

    /// Adds the translation of `module` under `options` to the text.
    ///
    /// Where the translation fails, the text stays as it was.
    pub fn write(&mut self, module: &Module, options: Options) -> (result: Result<(), Error>)
        requires
            module@.wf(),
        ensures
            match module_text(module@, options.binding_map@) {
                Ok(text) => result is Ok && final(self)@ == old(self)@ + text,
                Err(e) => result == Err::<(), Error>(e) && final(self)@ == old(self)@,
            },
    {
        match write_string(module, options) {
            Ok(text) => {
                self.out.append(text.as_str());
                Ok(())
            },
            Err(e) => Err(e),
        }
    }

    /// The text written so far.
    pub fn finish(self) -> (out: String)
        ensures
            out@ == self@,
    {
        self.out
    }
}

} // verus!
