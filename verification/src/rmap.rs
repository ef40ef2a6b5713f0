//! Generation of paths from the names of resources.

use vstd::prelude::*;
use crate::path::segments_view;
use crate::pattern::{generate, ResourceDef, ResourceDefView};

verus! {

/// Why no path was generated.
#[derive(Clone, Copy, Debug, PartialEq, Eq, Structural)]
pub enum UrlGenerationError {
    /// No resource was registered under the name.
    ResourceNotFound,
    /// The pattern has more dynamic segments than values were given.
    NotEnoughElements,
}

/// The definitions that a vector of definitions stands for.
pub open spec fn definitions_view(v: Seq<ResourceDef>) -> Seq<ResourceDefView> {
    Seq::new(v.len(), |i: int| v[i]@)
}

/// Index of the last definition among the first `n` that has the name
/// `name`. No definition is found under the empty name.
pub open spec fn find_definition(definitions: Seq<ResourceDefView>, name: Seq<u8>, n: int) -> Option<
    int,
>
    decreases n,
{
    if n <= 0 || name.len() == 0 {
        None
    } else if definitions[n - 1].name == name {
        Some(n - 1)
    } else {
        find_definition(definitions, name, n - 1)
    }
}

/// The path of the resource `name` with `elements` in place of its dynamic
/// segments.
pub open spec fn url_for(
    definitions: Seq<ResourceDefView>,
    name: Seq<u8>,
    elements: Seq<Seq<u8>>,
) -> Result<Seq<u8>, UrlGenerationError> {
    match find_definition(definitions, name, definitions.len() as int) {
        None => Err(UrlGenerationError::ResourceNotFound),
        Some(i) => match generate(definitions[i].segments, elements) {
            Some(path) => Ok(path),
            None => Err(UrlGenerationError::NotEnoughElements),
        },
    }
}

/// What `find_definition` finds: the definition with the name after which,
/// among the first `n`, no other has it; or nothing, where none has it.
pub proof fn lemma_find_definition(definitions: Seq<ResourceDefView>, name: Seq<u8>, n: int)
    requires
        n <= definitions.len(),
    ensures
        match find_definition(definitions, name, n) {
            Some(i) => 0 <= i < n && name.len() > 0 && definitions[i].name == name && forall|
                k: int,
            |
                i < k < n ==> (#[trigger] definitions[k]).name != name,
            None => name.len() == 0 || forall|k: int|
                0 <= k < n ==> (#[trigger] definitions[k]).name != name,
        },
    decreases n,
{
    if n > 0 && name.len() > 0 && definitions[n - 1].name != name {
        lemma_find_definition(definitions, name, n - 1);
    }
}

/// The named resources of an application, internal and external.
pub struct ResourceMap {
    definitions: Vec<ResourceDef>,
}

impl View for ResourceMap {
    type V = Seq<ResourceDefView>;

    closed spec fn view(&self) -> Seq<ResourceDefView> {
        definitions_view(self.definitions@)
    }
}

impl ResourceMap {
    /// A map without resources.
    pub fn new() -> (map: ResourceMap)
        ensures
            map@ == Seq::<ResourceDefView>::empty(),
    {
        let map = ResourceMap { definitions: Vec::new() };
        assert(definitions_view(map.definitions@) =~= Seq::empty());
        map
    }

    /// Registers `definition` after those that are there.
    pub fn add(&mut self, definition: ResourceDef)
        ensures
            final(self)@ == old(self)@.push(definition@),
    {
        self.definitions.push(definition);
        assert(definitions_view(self.definitions@) =~= definitions_view(old(self).definitions@).push(
            definition@,
        ));
    }

    /// Generates the path of the resource `name`.
    pub fn url_for(&self, name: &[u8], elements: &Vec<Vec<u8>>) -> (generated: Result<
        Vec<u8>,
        UrlGenerationError,
    >)
        ensures
            match generated {
                Ok(path) => url_for(self@, name@, segments_view(elements@)) == Ok::<
                    Seq<u8>,
                    UrlGenerationError,
                >(path@),
                Err(error) => url_for(self@, name@, segments_view(elements@)) == Err::<
                    Seq<u8>,
                    UrlGenerationError,
                >(error),
            },
    {
        if name.len() == 0 {
            return Err(UrlGenerationError::ResourceNotFound);
        }
        let ghost definitions = definitions_view(self.definitions@);
        let mut i: usize = self.definitions.len();
        while i > 0
            invariant
                i <= self.definitions.len(),
                name@.len() > 0,
                definitions == definitions_view(self.definitions@),
                find_definition(definitions, name@, definitions.len() as int) == find_definition(
                    definitions,
                    name@,
                    i as int,
                ),
            decreases i,
        {
            i -= 1;
            assert(definitions[i as int] == self.definitions@[i as int]@);
            if self.definitions[i].has_name(name) {
                return match self.definitions[i].resource_path(elements) {
                    Some(path) => Ok(path),
                    None => Err(UrlGenerationError::NotEnoughElements),
                };
            }
        }
        Err(UrlGenerationError::ResourceNotFound)
    }
}

} // verus!
