//! Structured type tags: the fully qualified name of an on-chain struct type.

use crate::object_id::ObjectId;
use vstd::prelude::*;

verus! {

/// The type of an on-chain struct: the address of its package, its module,
/// its name and, for a generic type, the canonical text of each type argument.
#[derive(Clone, Debug, PartialEq, Eq)]
pub struct StructTag {
    pub address: ObjectId,
    pub module: String,
    pub name: String,
    pub type_params: Vec<String>,
}

/// A type tag as a mathematical value.
pub ghost struct StructTagView {
    pub address: Seq<u8>,
    pub module: Seq<char>,
    pub name: Seq<char>,
    pub type_params: Seq<Seq<char>>,
}

impl View for StructTag {
    type V = StructTagView;

    open spec fn view(&self) -> StructTagView {
        StructTagView {
            address: self.address@,
            module: self.module@,
            name: self.name@,
            type_params: self.type_params.deep_view(),
        }
    }
}

impl DeepView for StructTag {
    type V = StructTagView;

    open spec fn deep_view(&self) -> StructTagView {
        self@
    }
}

impl StructTag {
    /// The tag of the type `name` of module `module` in package `address`,
    /// without type arguments.
    pub fn new(address: ObjectId, module: &str, name: &str) -> (tag: StructTag)
        ensures
            tag@ == (StructTagView {
                address: address@,
                module: module@,
                name: name@,
                type_params: Seq::empty(),
            }),
    {
        let tag = StructTag {
            address,
            module: module.to_owned(),
            name: name.to_owned(),
            type_params: Vec::new(),
        };
        assert(tag.type_params.deep_view() =~= Seq::<Seq<char>>::empty());
        tag
    }

    /// Whether the two tags name the same type: same address, same module,
    /// same name and the same type arguments in the same order.
    pub fn same_as(&self, other: &StructTag) -> (same: bool)
        ensures
            same == (self@ == other@),
    {
        if !self.address.same_as(&other.address) {
            return false;
        }
        if self.module != other.module || self.name != other.name {
            return false;
        }
        if self.type_params.len() != other.type_params.len() {
            assert(self.type_params.deep_view().len() != other.type_params.deep_view().len());
            return false;
        }
        let mut i: usize = 0;
        while i < self.type_params.len()
            invariant
                i <= self.type_params.len(),
                self.type_params.len() == other.type_params.len(),
                forall|j: int| 0 <= j < i ==> self.type_params@[j]@ == other.type_params@[j]@,
            decreases self.type_params.len() - i,
        {
            if self.type_params[i] != other.type_params[i] {
                assert(self.type_params.deep_view()[i as int] != other.type_params.deep_view()[i as int]);
                return false;
            }
            i = i + 1;
        }
        assert(self.type_params.deep_view() =~= other.type_params.deep_view());
        true
    }
}

} // verus!
