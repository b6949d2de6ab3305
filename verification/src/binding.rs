//! Resolution of the bindings of a module into the flat slots and attributes
//! of the target language.

use crate::error::Error;
use crate::ir::{Binding, BuiltIn};
use crate::text::{decimal, push_decimal};
use std::collections::HashMap;
use vstd::prelude::*;
use vstd::string::*;

verus! {

/// The slots of the target language that one descriptor is mapped to: at
/// most one of each kind.
#[derive(Clone, Copy, Debug, PartialEq, Eq)]
pub struct BindTarget {
    pub buffer: Option<u8>,
    pub texture: Option<u8>,
    pub sampler: Option<u8>,
}

impl BindTarget {
    /// Whether the target names a slot at all.
    pub open spec fn is_populated(self) -> bool {
        self.buffer is Some || self.texture is Some || self.sampler is Some
    }

    /// Whether the target names a slot at all.
    pub fn populated(&self) -> (yes: bool)
        ensures
            yes == self.is_populated(),
    {
        self.buffer.is_some() || self.texture.is_some() || self.sampler.is_some()
    }
}

/// A descriptor as the module names it.
#[derive(Clone, Copy, Debug, Hash, PartialEq, Eq, PartialOrd, Ord)]
pub struct BindSource {
    pub set: u32,
    pub binding: u32,
}

/// The number under which the table keeps `source`. Different sources have
/// different numbers.
pub open spec fn slot_key(source: BindSource) -> u64 {
    (source.set as u64 * 0x1_0000_0000 + source.binding as u64) as u64
}

/// The caller's table from descriptors to slots. Every target in it names at
/// least one slot.
pub struct BindingMap {
    slots: HashMap<u64, BindTarget>,
}

impl View for BindingMap {
    type V = Map<BindSource, BindTarget>;

    closed spec fn view(&self) -> Map<BindSource, BindTarget> {
        Map::new(
            |source: BindSource| self.slots@.contains_key(slot_key(source)),
            |source: BindSource| self.slots@[slot_key(source)],
        )
    }
}

impl BindingMap {
    #[verifier::type_invariant]
    spec fn populated_targets(self) -> bool {
        forall|key: u64| #[trigger] self.slots@.contains_key(key) ==> self.slots@[key].is_populated()
    }

    /// The table without entries.
    pub fn new() -> (map: Self)
        ensures
            map@ == Map::<BindSource, BindTarget>::empty(),
    {
        let map = BindingMap { slots: HashMap::new() };
        assert(map@ =~= Map::<BindSource, BindTarget>::empty());
        map
    }

    /// Maps `source` to `target`, in place of an earlier target of `source`.
    /// A target that names no slot is refused, and the table stays as it is.
    pub fn insert(&mut self, source: BindSource, target: BindTarget) -> (accepted: bool)
        ensures
            accepted == target.is_populated(),
            final(self)@ == (if target.is_populated() {
                old(self)@.insert(source, target)
            } else {
                old(self)@
            }),
    {
        if !target.populated() {
            return false;
        }
        let key = Self::key(&source);
        let mut taken = BindingMap::new();
        core::mem::swap(self, &mut taken);
        proof {
            use_type_invariant(&taken);
        }
        let BindingMap { mut slots } = taken;
        slots.insert(key, target);
        *self = BindingMap { slots };
        assert(self@ =~= old(self)@.insert(source, target)) by {
            assert forall|s: BindSource| slot_key(s) == key implies s == source by {
                lemma_slot_key_injective(s, source);
            }
        }
        true
    }

    /// The target of `source`, if the table has one.
    pub fn get(&self, source: &BindSource) -> (target: Option<BindTarget>)
        ensures
            target == (if self@.contains_key(*source) {
                Some(self@[*source])
            } else {
                None
            }),
            target matches Some(t) ==> t.is_populated(),
    {
        proof {
            use_type_invariant(self);
        }
        let key = Self::key(source);
        match self.slots.get(&key) {
            Some(target) => Some(*target),
            None => None,
        }
    }

    fn key(source: &BindSource) -> (key: u64)
        ensures
            key == slot_key(*source),
    {
        source.set as u64 * 0x1_0000_0000 + source.binding as u64
    }
}

/// What the translation is configured with.
pub struct Options<'a> {
    pub binding_map: &'a BindingMap,
}

/// The place in which a location is used, which decides how it is written.
#[derive(Clone, Copy, Debug, PartialEq, Eq)]
pub enum LocationMode {
    VertexInput,
    FragmentOutput,
    Intermediate,
}

/// A binding as the target language attaches it to a declaration.
#[derive(Clone, Copy, Debug, PartialEq, Eq)]
pub enum ResolvedBinding {
    BuiltIn(BuiltIn),
    Attribute(u32),
    Color(u32),
    User { prefix: &'static str, index: u32 },
    Resource(BindTarget),
}

/// What `binding` resolves to in a place of kind `mode`, given the table
/// `map`: a built-in stays what it is, a location becomes an attribute, a
/// colour or a user attribute according to `mode`, and a descriptor becomes
/// the target that `map` gives it, or fails where `map` gives it none.
pub open spec fn resolve(
    map: Map<BindSource, BindTarget>,
    binding: Binding,
    mode: LocationMode,
) -> Result<ResolvedBinding, Error> {
    match binding {
        Binding::BuiltIn(built_in) => Ok(ResolvedBinding::BuiltIn(built_in)),
        Binding::Location(index) => Ok(
            match mode {
                LocationMode::VertexInput => ResolvedBinding::Attribute(index),
                LocationMode::FragmentOutput => ResolvedBinding::Color(index),
                LocationMode::Intermediate => ResolvedBinding::User { prefix: "loc", index },
            },
        ),
        Binding::Descriptor { set, binding } => {
            let source = BindSource { set, binding };
            if map.contains_key(source) {
                Ok(ResolvedBinding::Resource(map[source]))
            } else {
                Err(Error::MissingBindTarget(source))
            }
        },
    }
}

/// The name of a built-in in the target language.
pub open spec fn built_in_name(built_in: BuiltIn) -> Seq<char> {
    match built_in {
        BuiltIn::ClipDistance => "clip_distance"@,
        BuiltIn::PointSize => "point_size"@,
        BuiltIn::Position => "position"@,
    }
}

/// The attribute of a slot: the kind of the first slot that `target` names,
/// buffer before texture before sampler, with the slot's number in brackets.
pub open spec fn resource_text(target: BindTarget) -> Seq<char>
    recommends
        target.is_populated(),
{
    if let Some(id) = target.buffer {
        "buffer("@ + decimal(id as nat) + ")"@
    } else if let Some(id) = target.texture {
        "texture("@ + decimal(id as nat) + ")"@
    } else {
        "sampler("@ + decimal(target.sampler.unwrap() as nat) + ")"@
    }
}

impl ResolvedBinding {
    /// Whether the binding can be written: a resource names a slot.
    pub open spec fn wf(self) -> bool {
        self matches ResolvedBinding::Resource(target) ==> target.is_populated()
    }

    /// The text of the attribute, as it stands between the double brackets.
    pub open spec fn text(self) -> Seq<char>
        recommends
            self.wf(),
    {
        match self {
            ResolvedBinding::BuiltIn(built_in) => built_in_name(built_in),
            ResolvedBinding::Attribute(index) => "attribute("@ + decimal(index as nat) + ")"@,
            ResolvedBinding::Color(index) => "color("@ + decimal(index as nat) + ")"@,
            ResolvedBinding::User { prefix, index } => "user("@ + prefix@ + decimal(index as nat)
                + ")"@,
            ResolvedBinding::Resource(target) => resource_text(target),
        }
    }

    /// Appends the text of the attribute to `out`.
    pub fn write_to(&self, out: &mut String)
        requires
            self.wf(),
        ensures
            final(out)@ == old(out)@ + self.text(),
    {
        match *self {
            ResolvedBinding::BuiltIn(built_in) => {
                let name = match built_in {
                    BuiltIn::ClipDistance => "clip_distance",
                    BuiltIn::PointSize => "point_size",
                    BuiltIn::Position => "position",
                };
                out.append(name);
            },
            ResolvedBinding::Attribute(index) => {
                out.append("attribute(");
                push_decimal(out, index as u64);
                out.append(")");
            },
            ResolvedBinding::Color(index) => {
                out.append("color(");
                push_decimal(out, index as u64);
                out.append(")");
            },
            ResolvedBinding::User { prefix, index } => {
                out.append("user(");
                out.append(prefix);
                push_decimal(out, index as u64);
                out.append(")");
            },
            ResolvedBinding::Resource(target) => {
                if let Some(id) = target.buffer {
                    out.append("buffer(");
                    push_decimal(out, id as u64);
                } else if let Some(id) = target.texture {
                    out.append("texture(");
                    push_decimal(out, id as u64);
                } else if let Some(id) = target.sampler {
                    out.append("sampler(");
                    push_decimal(out, id as u64);
                }
                out.append(")");
            },
        }
        assert(out@ =~= old(out)@ + self.text());
    }

    /// The text of the attribute.
    pub fn to_string(&self) -> (text: String)
        requires
            self.wf(),
        ensures
            text@ == self.text(),
    {
        let mut text = String::new();
        self.write_to(&mut text);
        assert(text@ =~= self.text());
        text
    }
}

impl<'a> Options<'a> {
    /// Resolves `binding` for a place of kind `mode`.
    pub fn resolve_binding(&self, binding: &Binding, mode: LocationMode) -> (resolved: Result<
        ResolvedBinding,
        Error,
    >)
        ensures
            resolved == resolve(self.binding_map@, *binding, mode),
            resolved matches Ok(r) ==> r.wf(),
    {
        match *binding {
            Binding::BuiltIn(built_in) => Ok(ResolvedBinding::BuiltIn(built_in)),
            Binding::Location(index) => Ok(
                match mode {
                    LocationMode::VertexInput => ResolvedBinding::Attribute(index),
                    LocationMode::FragmentOutput => ResolvedBinding::Color(index),
                    LocationMode::Intermediate => ResolvedBinding::User { prefix: "loc", index },
                },
            ),
            Binding::Descriptor { set, binding } => {
                let source = BindSource { set, binding };
                match self.binding_map.get(&source) {
                    Some(target) => Ok(ResolvedBinding::Resource(target)),
                    None => Err(Error::MissingBindTarget(source)),
                }
            },
        }
    }
}

/// Two sources with the same key are the same source.
pub proof fn lemma_slot_key_injective(a: BindSource, b: BindSource)
    requires
        slot_key(a) == slot_key(b),
    ensures
        a == b,
{
}

} // verus!
