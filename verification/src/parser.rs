//! The raw item graph and its resolution into the catalogue.
//!
//! The graph arrives pre-typed: a finite collection of items, each with a
//! stable id, an optional display name, a visibility, a doc string and one
//! kind-specific payload, plus a root id and a format-version tag.
//! Resolution walks import chains to their terminal targets, classifies
//! every containment relation, generates every canonical dotted path with
//! re-export fan-out, and assembles the sorted entry set.

use crate::seeker::{spec_insert_all, DocItem, DocItemKind, LinkType, RustDoc, SpecEntry,
    SpecLink, SpecTypeItem, TypeItem};
use crate::text::{push_str, str_eq};
use vstd::prelude::*;

verus! {

/// The one graph format version this resolver accepts.
pub const SUPPORTED_FORMAT_VERSION: u32 = 30;

/// Whether an item is visible outside its defining scope.
#[derive(Clone, Copy, Debug, PartialEq, Eq, Structural)]
pub enum Visibility {
    Public,
    Restricted,
}

/// The kind of a procedural macro.
#[derive(Clone, Copy, Debug, PartialEq, Eq, Structural)]
pub enum MacroKind {
    Bang,
    Attr,
    Derive,
}

/// The shape of a struct's fields.
pub enum StructKind {
    Plain { fields: Vec<u64> },
    Tuple { fields: Vec<Option<u64>> },
    Unit,
}

/// The shape of an enum variant's fields.
pub enum VariantKind {
    Plain,
    Tuple { fields: Vec<Option<u64>> },
    Struct { fields: Vec<u64> },
}

/// The kind-specific payload of a raw item; children are named by id.
pub enum ItemPayload {
    Module { items: Vec<u64> },
    ExternCrate,
    Import { name: String, id: Option<u64>, glob: bool },
    Union { fields: Vec<u64>, impls: Vec<u64> },
    Struct { kind: StructKind, impls: Vec<u64> },
    StructField,
    Enum { variants: Vec<u64>, impls: Vec<u64> },
    Variant { kind: VariantKind },
    Function { has_body: bool },
    Trait { items: Vec<u64> },
    TraitAlias,
    Impl { items: Vec<u64> },
    TypeAlias,
    Constant,
    Static,
    ForeignType,
    Macro,
    ProcMacro { kind: MacroKind },
    Primitive { impls: Vec<u64> },
    AssocConst,
    AssocType,
}

/// One raw documentation item.
pub struct RawItem {
    pub id: u64,
    pub name: Option<String>,
    pub visibility: Visibility,
    pub docs: Option<String>,
    pub inner: ItemPayload,
}

/// A whole raw graph: its items, the crate root's id, and the format
/// version of the source it was read from.
pub struct RawCrate {
    pub root: u64,
    pub format_version: u32,
    pub items: Vec<RawItem>,
}

/// Why a raw graph was rejected.
#[derive(Debug, PartialEq, Eq, Structural)]
pub enum RustDocParseError {
    /// The input could not be read into the expected graph schema.
    Json,
    /// The graph carries an unsupported format version; the offending
    /// version is kept so a caller can present a precise message.
    UnsupportedFormatVersion(u32),
}

/// The display kind a raw payload maps to.
pub open spec fn spec_map_kind(item: RawItem) -> DocItemKind {
    match item.inner {
        ItemPayload::Module { .. } => DocItemKind::Module,
        ItemPayload::ExternCrate => DocItemKind::ExternCrate,
        ItemPayload::Import { .. } => DocItemKind::Import,
        ItemPayload::Union { .. } => DocItemKind::Union,
        ItemPayload::Struct { .. } => DocItemKind::Struct,
        ItemPayload::StructField => DocItemKind::StructField,
        ItemPayload::Enum { .. } => DocItemKind::Enum,
        ItemPayload::Variant { .. } => DocItemKind::Variant,
        ItemPayload::Function { .. } => DocItemKind::Function,
        ItemPayload::Trait { .. } => DocItemKind::Trait,
        ItemPayload::TraitAlias => DocItemKind::TraitAlias,
        ItemPayload::Impl { .. } => DocItemKind::Impl,
        ItemPayload::TypeAlias => DocItemKind::Typedef,
        ItemPayload::Constant => DocItemKind::Constant,
        ItemPayload::Static => DocItemKind::Static,
        ItemPayload::ForeignType => DocItemKind::ForeignType,
        ItemPayload::Macro => DocItemKind::Macro,
        ItemPayload::ProcMacro { kind } => match kind {
            MacroKind::Bang => DocItemKind::Macro,
            MacroKind::Attr => DocItemKind::AttributeMacro,
            MacroKind::Derive => DocItemKind::DeriveMacro,
        },
        ItemPayload::Primitive { .. } => DocItemKind::Primitive,
        ItemPayload::AssocConst => DocItemKind::AssociatedConst,
        ItemPayload::AssocType => DocItemKind::AssociatedType,
    }
}

/// Maps a raw item to its display kind.
pub fn map_doc_item_kind(item: &RawItem) -> (r: DocItemKind)
    ensures
        r == spec_map_kind(*item),
{
    match &item.inner {
        ItemPayload::Module { .. } => DocItemKind::Module,
        ItemPayload::ExternCrate => DocItemKind::ExternCrate,
        ItemPayload::Import { .. } => DocItemKind::Import,
        ItemPayload::Union { .. } => DocItemKind::Union,
        ItemPayload::Struct { .. } => DocItemKind::Struct,
        ItemPayload::StructField => DocItemKind::StructField,
        ItemPayload::Enum { .. } => DocItemKind::Enum,
        ItemPayload::Variant { .. } => DocItemKind::Variant,
        ItemPayload::Function { .. } => DocItemKind::Function,
        ItemPayload::Trait { .. } => DocItemKind::Trait,
        ItemPayload::TraitAlias => DocItemKind::TraitAlias,
        ItemPayload::Impl { .. } => DocItemKind::Impl,
        ItemPayload::TypeAlias => DocItemKind::Typedef,
        ItemPayload::Constant => DocItemKind::Constant,
        ItemPayload::Static => DocItemKind::Static,
        ItemPayload::ForeignType => DocItemKind::ForeignType,
        ItemPayload::Macro => DocItemKind::Macro,
        ItemPayload::ProcMacro { kind } => match kind {
            MacroKind::Bang => DocItemKind::Macro,
            MacroKind::Attr => DocItemKind::AttributeMacro,
            MacroKind::Derive => DocItemKind::DeriveMacro,
        },
        ItemPayload::Primitive { .. } => DocItemKind::Primitive,
        ItemPayload::AssocConst => DocItemKind::AssociatedConst,
        ItemPayload::AssocType => DocItemKind::AssociatedType,
    }
}

/// The kind an associated child ends up with: a function with a body is a
/// method, one without is a required method; anything else is unchanged.
pub open spec fn spec_fix_kind(kind: DocItemKind, item: RawItem) -> DocItemKind {
    match (kind, item.inner) {
        (DocItemKind::Function, ItemPayload::Function { has_body }) => if has_body {
            DocItemKind::Method
        } else {
            DocItemKind::TyMethod
        },
        _ => kind,
    }
}

/// Reclassifies an associated child's display kind in place.
pub fn fix_associated_item_kind(kind: &mut DocItemKind, item: &RawItem)
    ensures
        *final(kind) == spec_fix_kind(*old(kind), *item),
{
    match (&kind, &item.inner) {
        (DocItemKind::Function, ItemPayload::Function { has_body }) => {
            if *has_body {
                *kind = DocItemKind::Method;
            } else {
                *kind = DocItemKind::TyMethod;
            }
        },
        _ => {},
    }
}

/// The kinds anchored to an owner's page rather than standing on a page of
/// their own.
pub open spec fn spec_is_associated_item(k: DocItemKind) -> bool {
    k == DocItemKind::AssociatedConst || k == DocItemKind::AssociatedType || k
        == DocItemKind::Method || k == DocItemKind::TyMethod
}

impl DocItemKind {
    /// Whether this kind is anchored to an owner's page.
    pub fn is_associated_item(&self) -> (r: bool)
        ensures
            r == spec_is_associated_item(*self),
    {
        match self {
            DocItemKind::AssociatedConst => true,
            DocItemKind::AssociatedType => true,
            DocItemKind::Method => true,
            DocItemKind::TyMethod => true,
            _ => false,
        }
    }
}

/// The display name of a raw item: its own name, an import's alias, or
/// empty.
pub open spec fn spec_name(item: RawItem) -> Seq<char> {
    match item.name {
        Option::Some(n) => n@,
        Option::None => match item.inner {
            ItemPayload::Import { name, .. } => name@,
            _ => Seq::<char>::empty(),
        },
    }
}

/// The position of the first item carrying `id`, if any.
pub open spec fn spec_find(items: Seq<RawItem>, id: u64) -> Option<usize>
    decreases items.len(),
{
    if items.len() == 0 {
        None
    } else if items[0].id == id {
        Some(0usize)
    } else {
        match spec_find(items.drop_first(), id) {
            Option::Some(j) => Some((j + 1) as usize),
            Option::None => None,
        }
    }
}

/// What `spec_find` returns: the first position carrying the id, or that
/// no position does.
pub proof fn lemma_find(items: Seq<RawItem>, id: u64)
    requires
        items.len() <= usize::MAX,
    ensures
        match spec_find(items, id) {
            Option::Some(j) => j < items.len() && items[j as int].id == id && forall|i: int|
                0 <= i < j ==> (#[trigger] items[i]).id != id,
            Option::None => forall|i: int| 0 <= i < items.len() ==> (#[trigger] items[i]).id != id,
        },
    decreases items.len(),
{
    if items.len() > 0 {
        lemma_find(items.drop_first(), id);
        if items[0].id != id {
            let rest = items.drop_first();
            match spec_find(rest, id) {
                Option::Some(j) => {
                    assert(items[j + 1] == rest[j as int]);
                    assert forall|i: int| 0 <= i < j + 1 implies (#[trigger] items[i]).id
                        != id by {
                        if i > 0 {
                            assert(rest[i - 1] == items[i]);
                        }
                    }
                },
                Option::None => {
                    assert forall|i: int| 0 <= i < items.len() implies (#[trigger] items[i]).id
                        != id by {
                        if i > 0 {
                            assert(rest[i - 1] == items[i]);
                        }
                    }
                },
            }
        }
    }
}

/// Finds the first item carrying `id`.
pub fn find_item(items: &Vec<RawItem>, id: u64) -> (r: Option<usize>)
    ensures
        r == spec_find(items@, id),
{
    let graph_len = items.len();
    proof {
        assert(items@.len() == graph_len);
        lemma_find(items@, id);
    }
    let mut i: usize = 0;
    while i < items.len()
        invariant
            i <= items@.len(),
            forall|t: int| 0 <= t < i ==> (#[trigger] items@[t]).id != id,
            match spec_find(items@, id) {
                Option::Some(j) => j < items@.len() && items@[j as int].id == id && forall|t: int|
                    0 <= t < j ==> (#[trigger] items@[t]).id != id,
                Option::None => forall|t: int|
                    0 <= t < items@.len() ==> (#[trigger] items@[t]).id != id,
            },
        decreases items@.len() - i,
    {
        if items[i].id == id {
            proof {
                if let Option::Some(j) = spec_find(items@, id) {
                    if i < j {
                        assert(items@[i as int].id != id);
                    }
                    if j < i {
                        assert(items@[j as int].id != id);
                    }
                } else {
                    assert(items@[i as int].id != id);
                }
            }
            return Some(i);
        }
        i = i + 1;
    }
    proof {
        if let Option::Some(j) = spec_find(items@, id) {
            assert(items@[j as int].id != id);
        }
    }
    None
}

/// The terminal non-import target of an import chain starting at `id`;
/// `None` when a hop is missing from the graph or the fuel runs out.  The
/// fuel bounds the walk by the node count, so a cyclic chain fails closed
/// instead of looping.
pub open spec fn spec_chain(items: Seq<RawItem>, id: u64, fuel: nat) -> Option<usize>
    decreases fuel,
{
    if fuel == 0 {
        None
    } else {
        match spec_find(items, id) {
            Option::None => None,
            Option::Some(j) => match items[j as int].inner {
                ItemPayload::Import { id: tgt, .. } => match tgt {
                    Option::Some(t2) => spec_chain(items, t2, (fuel - 1) as nat),
                    Option::None => Some(j),
                },
                _ => Some(j),
            },
        }
    }
}

/// Follows an import chain to its terminal non-import node.
fn resolve_chain(items: &Vec<RawItem>, id: u64, fuel: usize) -> (r: Option<usize>)
    ensures
        r == spec_chain(items@, id, fuel as nat),
    decreases fuel,
{
    if fuel == 0 {
        return None;
    }
    let graph_len = items.len();
    match find_item(items, id) {
        None => None,
        Some(j) => {
            proof {
                assert(items@.len() == graph_len);
                lemma_find(items@, id);
            }
            match &items[j].inner {
                ItemPayload::Import { id: tgt, .. } => match tgt {
                    Some(t2) => resolve_chain(items, *t2, fuel - 1),
                    None => Some(j),
                },
                _ => Some(j),
            }
        },
    }
}

/// Where the import at position `i` ultimately lands, if anywhere.
pub open spec fn spec_import_target(items: Seq<RawItem>, i: int) -> Option<usize> {
    match items[i].inner {
        ItemPayload::Import { id: tgt, .. } => match tgt {
            Option::Some(t) => spec_chain(items, t, items.len()),
            Option::None => None,
        },
        _ => None,
    }
}

/// The back-reference lists after the first `k` nodes were examined:
/// `imps[t]` holds, in ascending order, every import position at most `k`
/// whose chain terminates at `t`.
pub open spec fn spec_imports_upto(items: Seq<RawItem>, k: int) -> Seq<Seq<usize>>
    decreases k,
{
    if k <= 0 {
        Seq::new(items.len(), |i: int| Seq::<usize>::empty())
    } else {
        let prev = spec_imports_upto(items, k - 1);
        match spec_import_target(items, k - 1) {
            Option::Some(t) => prev.update(t as int, prev[t as int].push((k - 1) as usize)),
            Option::None => prev,
        }
    }
}

/// The complete back-reference lists of the graph.
pub open spec fn spec_imports(items: Seq<RawItem>) -> Seq<Seq<usize>> {
    spec_imports_upto(items, items.len() as int)
}

/// A resolved chain lands on a position inside the graph.
pub proof fn lemma_chain_in_range(items: Seq<RawItem>, id: u64, fuel: nat)
    requires
        items.len() <= usize::MAX,
    ensures
        spec_chain(items, id, fuel) matches Some(j) ==> j < items.len(),
    decreases fuel,
{
    if fuel > 0 {
        lemma_find(items, id);
        match spec_find(items, id) {
            Option::Some(j) => {
                match items[j as int].inner {
                    ItemPayload::Import { id: tgt, .. } => match tgt {
                        Option::Some(t2) => lemma_chain_in_range(items, t2, (fuel - 1) as nat),
                        Option::None => {},
                    },
                    _ => {},
                }
            },
            Option::None => {},
        }
    }
}

/// Records, for every node, who imports or re-exports it.
fn resolve_imports(items: &Vec<RawItem>) -> (imps: Vec<Vec<usize>>)
    ensures
        imps@.map_values(|v: Vec<usize>| v@) == spec_imports(items@),
{
    let mut imps: Vec<Vec<usize>> = Vec::new();
    let mut t: usize = 0;
    while t < items.len()
        invariant
            t <= items@.len(),
            imps@.len() == t,
            forall|i: int| 0 <= i < t ==> (#[trigger] imps@[i])@ == Seq::<usize>::empty(),
        decreases items@.len() - t,
    {
        imps.push(Vec::new());
        t = t + 1;
    }
    proof {
        assert(imps@.map_values(|v: Vec<usize>| v@) =~= spec_imports_upto(items@, 0));
    }
    let mut k: usize = 0;
    while k < items.len()
        invariant
            k <= items@.len(),
            imps@.len() == items@.len(),
            imps@.map_values(|v: Vec<usize>| v@) == spec_imports_upto(items@, k as int),
        decreases items@.len() - k,
    {
        let target = match &items[k].inner {
            ItemPayload::Import { id: tgt, .. } => match tgt {
                Some(t2) => resolve_chain(items, *t2, items.len()),
                None => None,
            },
            _ => None,
        };
        proof {
            assert(target == spec_import_target(items@, k as int));
        }
        let ghost old_imps = imps@;
        match target {
            Some(ti) => {
                proof {
                    match &items@[k as int].inner {
                        ItemPayload::Import { id: tgt, .. } => match tgt {
                            Option::Some(t2) => lemma_chain_in_range(
                                items@,
                                *t2,
                                items@.len() as nat,
                            ),
                            Option::None => {},
                        },
                        _ => {},
                    }
                }
                let mut inner = imps.remove(ti);
                inner.push(k);
                imps.insert(ti, inner);
                proof {
                    assert(imps@ =~= old_imps.update(ti as int, imps@[ti as int]));
                    assert(imps@[ti as int]@ =~= old_imps[ti as int]@.push(k));
                    assert(imps@.map_values(|v: Vec<usize>| v@) =~= spec_imports_upto(
                        items@,
                        k + 1,
                    ));
                }
            },
            None => {
                proof {
                    assert(imps@.map_values(|v: Vec<usize>| v@) =~= spec_imports_upto(
                        items@,
                        k + 1,
                    ));
                }
            },
        }
        k = k + 1;
    }
    imps
}

/// A node's containment relationship, by position in the item vector.
#[derive(Clone, Copy, Debug, PartialEq, Eq, Structural)]
pub enum ParentLink {
    /// The crate root.
    Root,
    /// A child listed by a module; the module contributes a path segment.
    ModuleChild { parent: usize },
    /// A member owned by a type, trait or impl, anchored on the type's
    /// page.
    AssociatedChild { type_parent: usize },
    /// A member nested under an intermediate container, such as a field of
    /// a struct-style enum variant.
    SubAssociatedChild { type_parent: usize, associated_item: usize },
}

/// The two write-once tables the classification pass fills: each node's
/// parent link and its (possibly reclassified) display kind.
#[verifier::ext_equal]
pub struct ClassState {
    pub parents: Seq<Option<ParentLink>>,
    pub kinds: Seq<DocItemKind>,
}

/// Sets a child's parent link; the first writer wins, a repeat write is a
/// no-op, and a child missing from the graph contributes nothing.
pub open spec fn spec_set_parent_p(
    parents: Seq<Option<ParentLink>>,
    c: Option<usize>,
    link: ParentLink,
) -> Seq<Option<ParentLink>> {
    match c {
        Option::Some(ci) => if ci < parents.len() && parents[ci as int] is None {
            parents.update(ci as int, Some(link))
        } else {
            parents
        },
        Option::None => parents,
    }
}

/// Reclassifies a child's display kind (applied whether or not the parent
/// write above won).
pub open spec fn spec_fix_at_k(
    items: Seq<RawItem>,
    kinds: Seq<DocItemKind>,
    c: Option<usize>,
) -> Seq<DocItemKind> {
    match c {
        Option::Some(ci) => if ci < kinds.len() && ci < items.len() {
            kinds.update(ci as int, spec_fix_kind(kinds[ci as int], items[ci as int]))
        } else {
            kinds
        },
        Option::None => kinds,
    }
}

/// Stamps `ModuleChild` on each listed child, in order.
pub open spec fn spec_assign_module(
    items: Seq<RawItem>,
    st: ClassState,
    j: usize,
    ids: Seq<u64>,
) -> ClassState
    decreases ids.len(),
{
    if ids.len() == 0 {
        st
    } else {
        let st1 = spec_assign_module(items, st, j, ids.drop_last());
        ClassState {
            parents: spec_set_parent_p(
                st1.parents,
                spec_find(items, ids.last()),
                ParentLink::ModuleChild { parent: j },
            ),
            kinds: st1.kinds,
        }
    }
}

/// Stamps `AssociatedChild` on each listed member and reclassifies its
/// kind, in order.
pub open spec fn spec_assign_members(
    items: Seq<RawItem>,
    st: ClassState,
    j: usize,
    ids: Seq<u64>,
) -> ClassState
    decreases ids.len(),
{
    if ids.len() == 0 {
        st
    } else {
        let st1 = spec_assign_members(items, st, j, ids.drop_last());
        let c = spec_find(items, ids.last());
        ClassState {
            parents: spec_set_parent_p(st1.parents, c, ParentLink::AssociatedChild {
                type_parent: j,
            }),
            kinds: spec_fix_at_k(items, st1.kinds, c),
        }
    }
}

/// Stamps `AssociatedChild` on each present positional field, in order;
/// positional fields are not reclassified.
pub open spec fn spec_assign_tuple(
    items: Seq<RawItem>,
    st: ClassState,
    j: usize,
    ids: Seq<Option<u64>>,
) -> ClassState
    decreases ids.len(),
{
    if ids.len() == 0 {
        st
    } else {
        let st1 = spec_assign_tuple(items, st, j, ids.drop_last());
        match ids.last() {
            Option::Some(id) => ClassState {
                parents: spec_set_parent_p(
                    st1.parents,
                    spec_find(items, id),
                    ParentLink::AssociatedChild { type_parent: j },
                ),
                kinds: st1.kinds,
            },
            Option::None => st1,
        }
    }
}

/// Stamps `SubAssociatedChild` on each field of one struct-style variant,
/// in order.
pub open spec fn spec_assign_subfields(
    items: Seq<RawItem>,
    st: ClassState,
    j: usize,
    vi: usize,
    fields: Seq<u64>,
) -> ClassState
    decreases fields.len(),
{
    if fields.len() == 0 {
        st
    } else {
        let st1 = spec_assign_subfields(items, st, j, vi, fields.drop_last());
        ClassState {
            parents: spec_set_parent_p(
                st1.parents,
                spec_find(items, fields.last()),
                ParentLink::SubAssociatedChild { type_parent: j, associated_item: vi },
            ),
            kinds: st1.kinds,
        }
    }
}

/// Module-child stamping never changes kinds.
pub proof fn lemma_assign_module_kinds(items: Seq<RawItem>, st: ClassState, j: usize, ids: Seq<u64>)
    ensures
        spec_assign_module(items, st, j, ids).kinds == st.kinds,
    decreases ids.len(),
{
    if ids.len() > 0 {
        lemma_assign_module_kinds(items, st, j, ids.drop_last());
    }
}

/// Positional-field stamping never changes kinds.
pub proof fn lemma_assign_tuple_kinds(
    items: Seq<RawItem>,
    st: ClassState,
    j: usize,
    ids: Seq<Option<u64>>,
)
    ensures
        spec_assign_tuple(items, st, j, ids).kinds == st.kinds,
    decreases ids.len(),
{
    if ids.len() > 0 {
        lemma_assign_tuple_kinds(items, st, j, ids.drop_last());
    }
}

/// Sub-associated stamping never changes kinds.
pub proof fn lemma_assign_subfields_kinds(
    items: Seq<RawItem>,
    st: ClassState,
    j: usize,
    vi: usize,
    fields: Seq<u64>,
)
    ensures
        spec_assign_subfields(items, st, j, vi, fields).kinds == st.kinds,
    decreases fields.len(),
{
    if fields.len() > 0 {
        lemma_assign_subfields_kinds(items, st, j, vi, fields.drop_last());
    }
}

/// Variant-field stamping never changes kinds.
pub proof fn lemma_assign_variants_kinds(
    items: Seq<RawItem>,
    st: ClassState,
    j: usize,
    variants: Seq<u64>,
)
    ensures
        spec_assign_variants(items, st, j, variants).kinds == st.kinds,
    decreases variants.len(),
{
    if variants.len() > 0 {
        lemma_assign_variants_kinds(items, st, j, variants.drop_last());
        let st1 = spec_assign_variants(items, st, j, variants.drop_last());
        match spec_find(items, variants.last()) {
            Option::Some(vi) => {
                match items[vi as int].inner {
                    ItemPayload::Variant { kind: VariantKind::Struct { fields } } => {
                        lemma_assign_subfields_kinds(items, st1, j, vi, fields@);
                    },
                    _ => {},
                }
            },
            Option::None => {},
        }
    }
}

/// Walks an enum's variants and stamps the fields of each struct-style
/// variant, in order.
pub open spec fn spec_assign_variants(
    items: Seq<RawItem>,
    st: ClassState,
    j: usize,
    variants: Seq<u64>,
) -> ClassState
    decreases variants.len(),
{
    if variants.len() == 0 {
        st
    } else {
        let st1 = spec_assign_variants(items, st, j, variants.drop_last());
        match spec_find(items, variants.last()) {
            Option::Some(vi) => match items[vi as int].inner {
                ItemPayload::Variant { kind: VariantKind::Struct { fields } } =>
                    spec_assign_subfields(items, st1, j, vi, fields@),
                _ => st1,
            },
            Option::None => st1,
        }
    }
}

/// Stamps each impl attached to a type, and the impl's own members, with
/// `AssociatedChild` of the type, flattening the impl layer.
pub open spec fn spec_assign_impls(
    items: Seq<RawItem>,
    st: ClassState,
    j: usize,
    impls: Seq<u64>,
) -> ClassState
    decreases impls.len(),
{
    if impls.len() == 0 {
        st
    } else {
        let st1 = spec_assign_impls(items, st, j, impls.drop_last());
        let c = spec_find(items, impls.last());
        let st2 = ClassState {
            parents: spec_set_parent_p(st1.parents, c, ParentLink::AssociatedChild {
                type_parent: j,
            }),
            kinds: spec_fix_at_k(items, st1.kinds, c),
        };
        match c {
            Option::Some(ii) => match items[ii as int].inner {
                ItemPayload::Impl { items: iitems } => spec_assign_members(
                    items,
                    st2,
                    j,
                    iitems@,
                ),
                _ => st2,
            },
            Option::None => st2,
        }
    }
}

/// What a container stamps on its direct children: module children, or
/// members, or positional fields, by the shape of its payload.
pub open spec fn spec_classify_stage1(items: Seq<RawItem>, st: ClassState, j: usize) -> ClassState {
    match items[j as int].inner {
        ItemPayload::Module { items: ids } => if spec_name(items[j as int]) != "prelude"@ {
            spec_assign_module(items, st, j, ids@)
        } else {
            st
        },
        ItemPayload::Union { fields, .. } => spec_assign_members(items, st, j, fields@),
        ItemPayload::Struct { kind, .. } => match kind {
            StructKind::Plain { fields } => spec_assign_members(items, st, j, fields@),
            StructKind::Tuple { fields } => spec_assign_tuple(items, st, j, fields@),
            StructKind::Unit => st,
        },
        ItemPayload::Enum { variants, .. } => spec_assign_members(items, st, j, variants@),
        ItemPayload::Trait { items: ids } => spec_assign_members(items, st, j, ids@),
        ItemPayload::Variant { kind } => match kind {
            VariantKind::Tuple { fields } => spec_assign_tuple(items, st, j, fields@),
            _ => st,
        },
        _ => st,
    }
}

/// What an enum stamps on the fields of its struct-style variants.
pub open spec fn spec_classify_stage2(items: Seq<RawItem>, st: ClassState, j: usize) -> ClassState {
    match items[j as int].inner {
        ItemPayload::Enum { variants, .. } => spec_assign_variants(items, st, j, variants@),
        _ => st,
    }
}

/// What a type stamps on its attached impls and their members.
pub open spec fn spec_classify_stage3(items: Seq<RawItem>, st: ClassState, j: usize) -> ClassState {
    match items[j as int].inner {
        ItemPayload::Union { impls, .. } => spec_assign_impls(items, st, j, impls@),
        ItemPayload::Struct { impls, .. } => spec_assign_impls(items, st, j, impls@),
        ItemPayload::Enum { impls, .. } => spec_assign_impls(items, st, j, impls@),
        ItemPayload::Primitive { impls } => spec_assign_impls(items, st, j, impls@),
        _ => st,
    }
}

/// Everything one container node stamps on its direct descendants:
/// module or member or positional children, then struct-style variant
/// fields, then attached impls.
pub open spec fn spec_classify_node(items: Seq<RawItem>, st: ClassState, j: usize) -> ClassState {
    spec_classify_stage3(items, spec_classify_stage2(items, spec_classify_stage1(items, st, j), j), j)
}

/// Before any container is examined: no parent links but the root's, and
/// every kind as the payload maps it.
pub open spec fn spec_init_state(items: Seq<RawItem>, root: u64) -> ClassState {
    let st0 = ClassState {
        parents: Seq::new(items.len(), |i: int| Option::<ParentLink>::None),
        kinds: Seq::new(items.len(), |i: int| spec_map_kind(items[i])),
    };
    ClassState {
        parents: spec_set_parent_p(st0.parents, spec_find(items, root), ParentLink::Root),
        kinds: st0.kinds,
    }
}

/// The tables after the first `k` nodes were examined.
pub open spec fn spec_classify_upto(items: Seq<RawItem>, root: u64, k: int) -> ClassState
    decreases k,
{
    if k <= 0 {
        spec_init_state(items, root)
    } else {
        spec_classify_node(items, spec_classify_upto(items, root, k - 1), (k - 1) as usize)
    }
}

/// The complete parent and kind tables of the graph.
pub open spec fn spec_classify(items: Seq<RawItem>, root: u64) -> ClassState {
    spec_classify_upto(items, root, items.len() as int)
}

/// Sets a child's parent link, first writer wins.
fn exec_set_parent(parents: &mut Vec<Option<ParentLink>>, c: Option<usize>, link: ParentLink)
    ensures
        final(parents)@ == spec_set_parent_p(old(parents)@, c, link),
        final(parents)@.len() == old(parents)@.len(),
{
    match c {
        Some(ci) => {
            if ci < parents.len() {
                if parents[ci].is_none() {
                    parents.set(ci, Some(link));
                }
            }
        },
        None => {},
    }
}

/// Reclassifies a child's display kind.
fn exec_fix_at(kinds: &mut Vec<DocItemKind>, items: &Vec<RawItem>, c: Option<usize>)
    ensures
        final(kinds)@ == spec_fix_at_k(items@, old(kinds)@, c),
        final(kinds)@.len() == old(kinds)@.len(),
{
    match c {
        Some(ci) => {
            if ci < kinds.len() && ci < items.len() {
                let mut k = kinds[ci];
                fix_associated_item_kind(&mut k, &items[ci]);
                kinds.set(ci, k);
            }
        },
        None => {},
    }
}

/// Stamps `ModuleChild` on each listed child.
fn assign_module(
    items: &Vec<RawItem>,
    parents: &mut Vec<Option<ParentLink>>,
    kinds: &mut Vec<DocItemKind>,
    j: usize,
    ids: &Vec<u64>,
)
    ensures
        final(parents)@ == spec_assign_module(
            items@,
            ClassState { parents: old(parents)@, kinds: old(kinds)@ },
            j,
            ids@,
        ).parents,
        final(kinds)@ == old(kinds)@,
        final(parents)@.len() == old(parents)@.len(),
{
    let ghost st0 = ClassState { parents: parents@, kinds: kinds@ };
    let mut t: usize = 0;
    while t < ids.len()
        invariant
            t <= ids@.len(),
            parents@.len() == st0.parents.len(),
            kinds@.len() == st0.kinds.len(),
            parents@ == spec_assign_module(items@, st0, j, ids@.take(t as int)).parents,
            kinds@ == spec_assign_module(items@, st0, j, ids@.take(t as int)).kinds,
            kinds@ == st0.kinds,
        decreases ids@.len() - t,
    {
        let c = find_item(items, ids[t]);
        exec_set_parent(parents, c, ParentLink::ModuleChild { parent: j });
        proof {
            assert(ids@.take(t + 1).drop_last() =~= ids@.take(t as int));
            assert(ids@.take(t + 1).last() == ids@[t as int]);
            lemma_assign_module_kinds(items@, st0, j, ids@.take(t + 1));
            lemma_assign_module_kinds(items@, st0, j, ids@.take(t as int));
        }
        t = t + 1;
    }
    proof {
        assert(ids@.take(ids@.len() as int) =~= ids@);
    }
}

/// Stamps `AssociatedChild` on each listed member and reclassifies it.
fn assign_members(
    items: &Vec<RawItem>,
    parents: &mut Vec<Option<ParentLink>>,
    kinds: &mut Vec<DocItemKind>,
    j: usize,
    ids: &Vec<u64>,
)
    ensures
        final(parents)@ == spec_assign_members(
            items@,
            ClassState { parents: old(parents)@, kinds: old(kinds)@ },
            j,
            ids@,
        ).parents,
        final(kinds)@ == spec_assign_members(
            items@,
            ClassState { parents: old(parents)@, kinds: old(kinds)@ },
            j,
            ids@,
        ).kinds,
        final(parents)@.len() == old(parents)@.len(),
        final(kinds)@.len() == old(kinds)@.len(),
{
    let ghost st0 = ClassState { parents: parents@, kinds: kinds@ };
    let mut t: usize = 0;
    while t < ids.len()
        invariant
            t <= ids@.len(),
            parents@.len() == st0.parents.len(),
            kinds@.len() == st0.kinds.len(),
            parents@ == spec_assign_members(items@, st0, j, ids@.take(t as int)).parents,
            kinds@ == spec_assign_members(items@, st0, j, ids@.take(t as int)).kinds,
        decreases ids@.len() - t,
    {
        let c = find_item(items, ids[t]);
        exec_set_parent(parents, c, ParentLink::AssociatedChild { type_parent: j });
        exec_fix_at(kinds, items, c);
        proof {
            assert(ids@.take(t + 1).drop_last() =~= ids@.take(t as int));
            assert(ids@.take(t + 1).last() == ids@[t as int]);
        }
        t = t + 1;
    }
    proof {
        assert(ids@.take(ids@.len() as int) =~= ids@);
    }
}

/// Stamps `AssociatedChild` on each present positional field.
fn assign_tuple(
    items: &Vec<RawItem>,
    parents: &mut Vec<Option<ParentLink>>,
    kinds: &mut Vec<DocItemKind>,
    j: usize,
    ids: &Vec<Option<u64>>,
)
    ensures
        final(parents)@ == spec_assign_tuple(
            items@,
            ClassState { parents: old(parents)@, kinds: old(kinds)@ },
            j,
            ids@,
        ).parents,
        final(kinds)@ == old(kinds)@,
        final(parents)@.len() == old(parents)@.len(),
{
    let ghost st0 = ClassState { parents: parents@, kinds: kinds@ };
    let mut t: usize = 0;
    while t < ids.len()
        invariant
            t <= ids@.len(),
            parents@.len() == st0.parents.len(),
            kinds@.len() == st0.kinds.len(),
            parents@ == spec_assign_tuple(items@, st0, j, ids@.take(t as int)).parents,
            kinds@ == spec_assign_tuple(items@, st0, j, ids@.take(t as int)).kinds,
            kinds@ == st0.kinds,
        decreases ids@.len() - t,
    {
        match &ids[t] {
            Some(id) => {
                let c = find_item(items, *id);
                exec_set_parent(parents, c, ParentLink::AssociatedChild { type_parent: j });
            },
            None => {},
        }
        proof {
            assert(ids@.take(t + 1).drop_last() =~= ids@.take(t as int));
            assert(ids@.take(t + 1).last() == ids@[t as int]);
            lemma_assign_tuple_kinds(items@, st0, j, ids@.take(t + 1));
            lemma_assign_tuple_kinds(items@, st0, j, ids@.take(t as int));
        }
        t = t + 1;
    }
    proof {
        assert(ids@.take(ids@.len() as int) =~= ids@);
    }
}

/// Stamps `SubAssociatedChild` on each field of one struct-style variant.
fn assign_subfields(
    items: &Vec<RawItem>,
    parents: &mut Vec<Option<ParentLink>>,
    kinds: &mut Vec<DocItemKind>,
    j: usize,
    vi: usize,
    fields: &Vec<u64>,
)
    ensures
        final(parents)@ == spec_assign_subfields(
            items@,
            ClassState { parents: old(parents)@, kinds: old(kinds)@ },
            j,
            vi,
            fields@,
        ).parents,
        final(kinds)@ == old(kinds)@,
        final(parents)@.len() == old(parents)@.len(),
{
    let ghost st0 = ClassState { parents: parents@, kinds: kinds@ };
    let mut t: usize = 0;
    while t < fields.len()
        invariant
            t <= fields@.len(),
            parents@.len() == st0.parents.len(),
            kinds@.len() == st0.kinds.len(),
            parents@ == spec_assign_subfields(items@, st0, j, vi, fields@.take(t as int)).parents,
            kinds@ == spec_assign_subfields(items@, st0, j, vi, fields@.take(t as int)).kinds,
            kinds@ == st0.kinds,
        decreases fields@.len() - t,
    {
        let c = find_item(items, fields[t]);
        exec_set_parent(
            parents,
            c,
            ParentLink::SubAssociatedChild { type_parent: j, associated_item: vi },
        );
        proof {
            assert(fields@.take(t + 1).drop_last() =~= fields@.take(t as int));
            assert(fields@.take(t + 1).last() == fields@[t as int]);
            lemma_assign_subfields_kinds(items@, st0, j, vi, fields@.take(t + 1));
            lemma_assign_subfields_kinds(items@, st0, j, vi, fields@.take(t as int));
        }
        t = t + 1;
    }
    proof {
        assert(fields@.take(fields@.len() as int) =~= fields@);
    }
}

/// Walks an enum's variants and stamps each struct-style variant's fields.
fn assign_variants(
    items: &Vec<RawItem>,
    parents: &mut Vec<Option<ParentLink>>,
    kinds: &mut Vec<DocItemKind>,
    j: usize,
    variants: &Vec<u64>,
)
    ensures
        final(parents)@ == spec_assign_variants(
            items@,
            ClassState { parents: old(parents)@, kinds: old(kinds)@ },
            j,
            variants@,
        ).parents,
        final(kinds)@ == spec_assign_variants(
            items@,
            ClassState { parents: old(parents)@, kinds: old(kinds)@ },
            j,
            variants@,
        ).kinds,
        final(parents)@.len() == old(parents)@.len(),
        final(kinds)@.len() == old(kinds)@.len(),
{
    let ghost st0 = ClassState { parents: parents@, kinds: kinds@ };
    let mut t: usize = 0;
    while t < variants.len()
        invariant
            t <= variants@.len(),
            parents@.len() == st0.parents.len(),
            kinds@.len() == st0.kinds.len(),
            parents@ == spec_assign_variants(items@, st0, j, variants@.take(t as int)).parents,
            kinds@ == spec_assign_variants(items@, st0, j, variants@.take(t as int)).kinds,
        decreases variants@.len() - t,
    {
        let ghost cur = spec_assign_variants(items@, st0, j, variants@.take(t as int));
        proof {
            assert((ClassState { parents: parents@, kinds: kinds@ }) =~= cur);
        }
        let graph_len = items.len();
        match find_item(items, variants[t]) {
            Some(vi) => {
                proof {
                    assert(items@.len() == graph_len);
                    lemma_find(items@, variants@[t as int]);
                }
                match &items[vi].inner {
                    ItemPayload::Variant { kind: VariantKind::Struct { fields } } => {
                        assign_subfields(items, parents, kinds, j, vi, fields);
                    },
                    _ => {},
                }
            },
            None => {},
        }
        proof {
            assert(variants@.take(t + 1).drop_last() =~= variants@.take(t as int));
            assert(variants@.take(t + 1).last() == variants@[t as int]);
            lemma_assign_variants_kinds(items@, st0, j, variants@.take(t + 1));
            lemma_assign_variants_kinds(items@, st0, j, variants@.take(t as int));
            match spec_find(items@, variants@[t as int]) {
                Option::Some(vi) => {
                    match items@[vi as int].inner {
                        ItemPayload::Variant { kind: VariantKind::Struct { fields } } => {
                            lemma_assign_subfields_kinds(items@, cur, j, vi, fields@);
                        },
                        _ => {},
                    }
                },
                Option::None => {},
            }
            assert(parents@ == spec_assign_variants(items@, st0, j, variants@.take(t + 1)).parents);
            assert(kinds@ == spec_assign_variants(items@, st0, j, variants@.take(t + 1)).kinds);
        }
        t = t + 1;
    }
    proof {
        assert(variants@.take(variants@.len() as int) =~= variants@);
    }
}

/// Stamps each attached impl and its members with the owning type.
fn assign_impls(
    items: &Vec<RawItem>,
    parents: &mut Vec<Option<ParentLink>>,
    kinds: &mut Vec<DocItemKind>,
    j: usize,
    impls: &Vec<u64>,
)
    ensures
        final(parents)@ == spec_assign_impls(
            items@,
            ClassState { parents: old(parents)@, kinds: old(kinds)@ },
            j,
            impls@,
        ).parents,
        final(kinds)@ == spec_assign_impls(
            items@,
            ClassState { parents: old(parents)@, kinds: old(kinds)@ },
            j,
            impls@,
        ).kinds,
        final(parents)@.len() == old(parents)@.len(),
        final(kinds)@.len() == old(kinds)@.len(),
{
    let ghost st0 = ClassState { parents: parents@, kinds: kinds@ };
    let mut t: usize = 0;
    while t < impls.len()
        invariant
            t <= impls@.len(),
            parents@.len() == st0.parents.len(),
            kinds@.len() == st0.kinds.len(),
            parents@ == spec_assign_impls(items@, st0, j, impls@.take(t as int)).parents,
            kinds@ == spec_assign_impls(items@, st0, j, impls@.take(t as int)).kinds,
        decreases impls@.len() - t,
    {
        let ghost cur = spec_assign_impls(items@, st0, j, impls@.take(t as int));
        proof {
            assert((ClassState { parents: parents@, kinds: kinds@ }) =~= cur);
        }
        let c = find_item(items, impls[t]);
        exec_set_parent(parents, c, ParentLink::AssociatedChild { type_parent: j });
        exec_fix_at(kinds, items, c);

        let graph_len = items.len();
        match c {
            Some(ii) => {
                proof {
                    assert(items@.len() == graph_len);
                    lemma_find(items@, impls@[t as int]);
                }
                match &items[ii].inner {
                    ItemPayload::Impl { items: iitems } => {
                        assign_members(items, parents, kinds, j, iitems);
                    },
                    _ => {},
                }
            },
            None => {},
        }
        proof {
            assert(impls@.take(t + 1).drop_last() =~= impls@.take(t as int));
            assert(impls@.take(t + 1).last() == impls@[t as int]);
            assert(parents@ == spec_assign_impls(items@, st0, j, impls@.take(t + 1)).parents);
            assert(kinds@ == spec_assign_impls(items@, st0, j, impls@.take(t + 1)).kinds);
        }
        t = t + 1;
    }
    proof {
        assert(impls@.take(impls@.len() as int) =~= impls@);
    }
}

/// Builds the parent-link and display-kind tables of the whole graph.
fn classify(items: &Vec<RawItem>, root: u64) -> (r: (Vec<Option<ParentLink>>, Vec<DocItemKind>))
    ensures
        r.0@ == spec_classify(items@, root).parents,
        r.1@ == spec_classify(items@, root).kinds,
        r.0@.len() == items@.len(),
        r.1@.len() == items@.len(),
{
    let mut parents: Vec<Option<ParentLink>> = Vec::new();
    let mut kinds: Vec<DocItemKind> = Vec::new();
    let mut i: usize = 0;
    while i < items.len()
        invariant
            i <= items@.len(),
            parents@.len() == i,
            kinds@.len() == i,
            forall|t: int| 0 <= t < i ==> parents@[t] is None,
            forall|t: int| 0 <= t < i ==> kinds@[t] == spec_map_kind(#[trigger] items@[t]),
        decreases items@.len() - i,
    {
        parents.push(None);
        kinds.push(map_doc_item_kind(&items[i]));
        i = i + 1;
    }
    proof {
        assert(parents@ =~= Seq::new(items@.len(), |t: int| Option::<ParentLink>::None));
        assert(kinds@ =~= Seq::new(items@.len(), |t: int| spec_map_kind(items@[t])));
    }
    let c = find_item(items, root);
    exec_set_parent(&mut parents, c, ParentLink::Root);
    proof {
        assert(parents@ == spec_classify_upto(items@, root, 0).parents);
        assert(kinds@ == spec_classify_upto(items@, root, 0).kinds);
    }
    let mut j: usize = 0;
    while j < items.len()
        invariant
            j <= items@.len(),
            parents@.len() == items@.len(),
            kinds@.len() == items@.len(),
            parents@ == spec_classify_upto(items@, root, j as int).parents,
            kinds@ == spec_classify_upto(items@, root, j as int).kinds,
        decreases items@.len() - j,
    {
        let ghost stj = spec_classify_upto(items@, root, j as int);
        proof {
            assert((ClassState { parents: parents@, kinds: kinds@ }) =~= stj);
        }
        match &items[j].inner {
            ItemPayload::Module { items: ids } => {
                let is_prelude = match &items[j].name {
                    Some(n) => str_eq(n.as_str(), "prelude"),
                    None => false,
                };
                proof {
                    if items@[j as int].name is None {
                        reveal_strlit("prelude");
                        assert(spec_name(items@[j as int]).len() == 0);
                        assert("prelude"@.len() == 7);
                    }
                }
                if !is_prelude {
                    assign_module(items, &mut parents, &mut kinds, j, ids);
                    proof {
                        lemma_assign_module_kinds(items@, stj, j as usize, ids@);
                    }
                }
            },
            ItemPayload::Union { fields, .. } => {
                assign_members(items, &mut parents, &mut kinds, j, fields);
            },
            ItemPayload::Struct { kind, .. } => {
                match kind {
                    StructKind::Plain { fields } => {
                        assign_members(items, &mut parents, &mut kinds, j, fields);
                    },
                    StructKind::Tuple { fields } => {
                        assign_tuple(items, &mut parents, &mut kinds, j, fields);
                        proof {
                            lemma_assign_tuple_kinds(items@, stj, j as usize, fields@);
                        }
                    },
                    StructKind::Unit => {},
                }
            },
            ItemPayload::Enum { variants, .. } => {
                assign_members(items, &mut parents, &mut kinds, j, variants);
            },
            ItemPayload::Trait { items: ids } => {
                assign_members(items, &mut parents, &mut kinds, j, ids);
            },
            ItemPayload::Variant { kind } => {
                match kind {
                    VariantKind::Tuple { fields } => {
                        assign_tuple(items, &mut parents, &mut kinds, j, fields);
                        proof {
                            lemma_assign_tuple_kinds(items@, stj, j as usize, fields@);
                        }
                    },
                    _ => {},
                }
            },
            _ => {},
        }
        proof {
            assert((ClassState { parents: parents@, kinds: kinds@ }) =~= spec_classify_stage1(
                items@,
                stj,
                j as usize,
            ));
        }
        match &items[j].inner {
            ItemPayload::Enum { variants, .. } => {
                assign_variants(items, &mut parents, &mut kinds, j, variants);
            },
            _ => {},
        }
        proof {
            assert((ClassState { parents: parents@, kinds: kinds@ }) =~= spec_classify_stage2(
                items@,
                spec_classify_stage1(items@, stj, j as usize),
                j as usize,
            ));
        }
        match &items[j].inner {
            ItemPayload::Union { impls, .. } => {
                assign_impls(items, &mut parents, &mut kinds, j, impls);
            },
            ItemPayload::Struct { impls, .. } => {
                assign_impls(items, &mut parents, &mut kinds, j, impls);
            },
            ItemPayload::Enum { impls, .. } => {
                assign_impls(items, &mut parents, &mut kinds, j, impls);
            },
            ItemPayload::Primitive { impls } => {
                assign_impls(items, &mut parents, &mut kinds, j, impls);
            },
            _ => {},
        }
        proof {
            assert(parents@ == spec_classify_node(items@, stj, j as usize).parents);
            assert(kinds@ == spec_classify_node(items@, stj, j as usize).kinds);
        }
        j = j + 1;
    }
    (parents, kinds)
}

/// The display names of all nodes.
fn compute_names(items: &Vec<RawItem>) -> (names: Vec<String>)
    ensures
        names@.len() == items@.len(),
        forall|i: int|
            0 <= i < items@.len() ==> (#[trigger] names@[i])@ == spec_name(items@[i]),
{
    let mut names: Vec<String> = Vec::new();
    let mut i: usize = 0;
    while i < items.len()
        invariant
            i <= items@.len(),
            names@.len() == i,
            forall|t: int| 0 <= t < i ==> (#[trigger] names@[t])@ == spec_name(items@[t]),
        decreases items@.len() - i,
    {
        let n = match &items[i].name {
            Some(n) => n.clone(),
            None => match &items[i].inner {
                ItemPayload::Import { name, .. } => name.clone(),
                _ => String::new(),
            },
        };
        names.push(n);
        i = i + 1;
    }
    names
}

/// Everything path generation reads: the graph, the display names, the
/// parent links and the back-reference lists.
#[verifier::ext_equal]
pub struct Resolution {
    pub items: Seq<RawItem>,
    pub names: Seq<Seq<char>>,
    pub parents: Seq<Option<ParentLink>>,
    pub imps: Seq<Seq<usize>>,
}

/// The resolution of a graph, as the passes above compute it.
pub open spec fn spec_resolution(items: Seq<RawItem>, root: u64) -> Resolution {
    Resolution {
        items,
        names: Seq::new(items.len(), |i: int| spec_name(items[i])),
        parents: spec_classify(items, root).parents,
        imps: spec_imports(items),
    }
}

/// Whether an item is a glob import; a glob import contributes no path
/// segment of its own.
pub open spec fn spec_is_glob_import(item: RawItem) -> bool {
    match item.inner {
        ItemPayload::Import { glob, .. } => glob,
        _ => false,
    }
}

/// Every canonical dotted path of a node, in generation order: its own
/// place first (through its module chain), then one batch per import that
/// re-exports it.  `omit` drops the node's own trailing segment, the shape
/// used for anchoring associated items.  The fuel bounds the recursion by
/// the node count, so a cyclic graph fails closed (yields no paths for the
/// cyclic branch) instead of recursing forever.
pub open spec fn spec_paths(r: Resolution, fuel: nat, idx: usize, omit: bool) -> Seq<Seq<char>>
    decreases fuel, 0int,
{
    if fuel == 0 || !(idx < r.items.len()) {
        Seq::<Seq<char>>::empty()
    } else if r.items[idx as int].visibility is Restricted {
        Seq::<Seq<char>>::empty()
    } else {
        let glob = spec_is_glob_import(r.items[idx as int]);
        let tail: Seq<char> = if omit || glob {
            Seq::<char>::empty()
        } else {
            "::"@ + r.names[idx as int]
        };
        let base: Seq<Seq<char>> = match r.parents[idx as int] {
            Option::Some(ParentLink::ModuleChild { parent }) => spec_paths(
                r,
                (fuel - 1) as nat,
                parent,
                false,
            ).map_values(|pp: Seq<char>| pp + tail),
            Option::Some(ParentLink::Root) => seq![
                if omit || glob {
                    Seq::<char>::empty()
                } else {
                    r.names[idx as int]
                },
            ],
            _ => Seq::<Seq<char>>::empty(),
        };
        base + spec_paths_list(r, (fuel - 1) as nat, r.imps[idx as int], omit)
    }
}

/// The paths contributed by a list of importing nodes, in list order.
pub open spec fn spec_paths_list(
    r: Resolution,
    fuel: nat,
    ids: Seq<usize>,
    omit: bool,
) -> Seq<Seq<char>>
    decreases fuel, ids.len() + 1,
{
    if ids.len() == 0 {
        Seq::<Seq<char>>::empty()
    } else {
        spec_paths_list(r, fuel, ids.drop_last(), omit) + spec_paths(r, fuel, ids.last(), omit)
    }
}

/// Generates every canonical dotted path of a node.
fn generate_path(
    items: &Vec<RawItem>,
    names: &Vec<String>,
    parents: &Vec<Option<ParentLink>>,
    imps: &Vec<Vec<usize>>,
    Ghost(res): Ghost<Resolution>,
    fuel: usize,
    idx: usize,
    omit: bool,
) -> (r: Vec<String>)
    requires
        res.items == items@,
        res.names == names@.map_values(|n: String| n@),
        res.parents == parents@,
        res.imps == imps@.map_values(|v: Vec<usize>| v@),
        names@.len() == items@.len(),
        parents@.len() == items@.len(),
        imps@.len() == items@.len(),
    ensures
        r@.map_values(|p: String| p@) == spec_paths(res, fuel as nat, idx, omit),
    decreases fuel,
{
    let mut out: Vec<String> = Vec::new();
    if fuel == 0 || idx >= items.len() {
        proof {
            assert(out@.map_values(|p: String| p@) =~~= spec_paths(res, fuel as nat, idx, omit));
        }
        return out;
    }
    if matches!(items[idx].visibility, Visibility::Restricted) {
        proof {
            assert(out@.map_values(|p: String| p@) =~~= spec_paths(res, fuel as nat, idx, omit));
        }
        return out;
    }
    let glob = match &items[idx].inner {
        ItemPayload::Import { glob, .. } => *glob,
        _ => false,
    };
    let mut tail = String::new();
    if !omit && !glob {
        push_str(&mut tail, "::");
        push_str(&mut tail, names[idx].as_str());
    }
    let ghost tail_spec: Seq<char> = if omit || glob {
        Seq::<char>::empty()
    } else {
        "::"@ + res.names[idx as int]
    };
    proof {
        assert(tail@ =~~= tail_spec);
    }
    let ghost base_spec: Seq<Seq<char>> = match res.parents[idx as int] {
        Option::Some(ParentLink::ModuleChild { parent }) => spec_paths(
            res,
            (fuel - 1) as nat,
            parent,
            false,
        ).map_values(|pp: Seq<char>| pp + tail_spec),
        Option::Some(ParentLink::Root) => seq![
            if omit || glob {
                Seq::<char>::empty()
            } else {
                res.names[idx as int]
            },
        ],
        _ => Seq::<Seq<char>>::empty(),
    };
    match &parents[idx] {
        Some(ParentLink::ModuleChild { parent }) => {
            let pp = generate_path(items, names, parents, imps, Ghost(res), fuel - 1, *parent, false);
            let ghost pspec = spec_paths(res, (fuel - 1) as nat, *parent, false);
            let mut k: usize = 0;
            proof {
                assert(out@.map_values(|p: String| p@) =~~= pspec.take(0).map_values(
                    |pc: Seq<char>| pc + tail_spec,
                ));
            }
            while k < pp.len()
                invariant
                    k <= pp@.len(),
                    pp@.map_values(|p: String| p@) == pspec,
                    tail@ == tail_spec,
                    out@.len() == k,
                    out@.map_values(|p: String| p@) == pspec.take(k as int).map_values(
                        |pc: Seq<char>| pc + tail_spec,
                    ),
                decreases pp@.len() - k,
            {
                proof {
                    assert(pspec[k as int] == pp@[k as int]@);
                }
                let mut q = pp[k].clone();
                push_str(&mut q, tail.as_str());
                proof {
                    assert(q@ == pspec[k as int] + tail_spec);
                }
                let ghost prev = out@;
                out.push(q);
                proof {
                    let lhs = out@.map_values(|p: String| p@);
                    let rhs = pspec.take(k + 1).map_values(|pc: Seq<char>| pc + tail_spec);
                    assert forall|i: int| 0 <= i < k + 1 implies lhs[i] == rhs[i] by {
                        assert(rhs[i] == pspec.take(k + 1)[i] + tail_spec);
                        if i < k {
                            assert(out@[i] == prev[i]);
                            assert(lhs[i] == prev.map_values(|p: String| p@)[i]);
                            assert(prev.map_values(|p: String| p@)[i] == pspec.take(
                                k as int,
                            ).map_values(|pc: Seq<char>| pc + tail_spec)[i]);
                            assert(pspec.take(k + 1)[i] == pspec.take(k as int)[i]);
                        } else {
                            assert(out@[i] == prev.push(out@[k as int])[i]);
                            assert(lhs[i] == out@[k as int]@);
                            assert(pspec.take(k + 1)[i] == pspec[k as int]);
                        }
                    }
                    assert(lhs =~~= rhs);
                }
                k = k + 1;
            }
            proof {
                assert(pspec.take(pspec.len() as int) =~= pspec);
                assert(out@.map_values(|p: String| p@) =~~= base_spec);
            }
        },
        Some(ParentLink::Root) => {
            if omit || glob {
                out.push(String::new());
            } else {
                out.push(names[idx].clone());
            }
            proof {
                assert(out@.map_values(|p: String| p@) =~~= base_spec);
            }
        },
        _ => {
            proof {
                assert(out@.map_values(|p: String| p@) =~~= base_spec);
            }
        },
    }
    let il = &imps[idx];
    let ghost ilspec = res.imps[idx as int];
    proof {
        assert(ilspec == il@);
    }
    let mut k: usize = 0;
    proof {
        assert(out@.map_values(|p: String| p@) =~~= base_spec + spec_paths_list(
            res,
            (fuel - 1) as nat,
            ilspec.take(0),
            omit,
        ));
    }
    while k < il.len()
        invariant
            k <= il@.len(),
            ilspec == il@,
            res.items == items@,
            res.names == names@.map_values(|n: String| n@),
            res.parents == parents@,
            res.imps == imps@.map_values(|v: Vec<usize>| v@),
            names@.len() == items@.len(),
            parents@.len() == items@.len(),
            imps@.len() == items@.len(),
            fuel >= 1,
            out@.len() == base_spec.len() + spec_paths_list(
                res,
                (fuel - 1) as nat,
                ilspec.take(k as int),
                omit,
            ).len(),
            out@.map_values(|p: String| p@) == base_spec + spec_paths_list(
                res,
                (fuel - 1) as nat,
                ilspec.take(k as int),
                omit,
            ),
        decreases il@.len() - k,
    {
        let sub = generate_path(items, names, parents, imps, Ghost(res), fuel - 1, il[k], omit);
        let ghost subspec = spec_paths(res, (fuel - 1) as nat, il@[k as int], omit);
        let mut m: usize = 0;
        proof {
            assert(out@.map_values(|p: String| p@) =~~= base_spec + spec_paths_list(
                res,
                (fuel - 1) as nat,
                ilspec.take(k as int),
                omit,
            ) + subspec.take(0));
        }
        while m < sub.len()
            invariant
                m <= sub@.len(),
                sub@.map_values(|p: String| p@) == subspec,
                out@.len() == base_spec.len() + spec_paths_list(
                    res,
                    (fuel - 1) as nat,
                    ilspec.take(k as int),
                    omit,
                ).len() + m,
                out@.map_values(|p: String| p@) == base_spec + spec_paths_list(
                    res,
                    (fuel - 1) as nat,
                    ilspec.take(k as int),
                    omit,
                ) + subspec.take(m as int),
            decreases sub@.len() - m,
        {
            proof {
                assert(subspec[m as int] == sub@[m as int]@);
            }
            let ghost prev = out@;
            out.push(sub[m].clone());
            proof {
                let lst = spec_paths_list(res, (fuel - 1) as nat, ilspec.take(k as int), omit);
                let lhs = out@.map_values(|p: String| p@);
                let rhs = base_spec + lst + subspec.take(m + 1);
                assert(lhs.len() == rhs.len());
                assert forall|i: int| 0 <= i < lhs.len() implies lhs[i] == rhs[i] by {
                    if i < prev.len() {
                        assert(out@[i] == prev[i]);
                        assert(lhs[i] == prev.map_values(|p: String| p@)[i]);
                        assert(prev.map_values(|p: String| p@)[i] == (base_spec + lst
                            + subspec.take(m as int))[i]);
                        if i >= base_spec.len() + lst.len() {
                            assert((base_spec + lst + subspec.take(m as int))[i]
                                == subspec.take(m as int)[i - base_spec.len() - lst.len()]);
                            assert((base_spec + lst + subspec.take(m + 1))[i] == subspec.take(
                                m + 1,
                            )[i - base_spec.len() - lst.len()]);
                            assert(subspec.take(m + 1)[i - base_spec.len() - lst.len()]
                                == subspec.take(m as int)[i - base_spec.len() - lst.len()]);
                        }
                    } else {
                        assert(out@[i] == prev.push(out@[prev.len() as int])[i]);
                        assert(lhs[i] == out@[prev.len() as int]@);
                        assert(out@[prev.len() as int]@ == subspec[m as int]);
                        assert(rhs[i] == subspec.take(m + 1)[m as int]);
                    }
                }
                assert(lhs =~~= rhs);
            }
            m = m + 1;
        }
        proof {
            assert(subspec.take(subspec.len() as int) =~= subspec);
            assert(ilspec.take(k + 1).drop_last() =~= ilspec.take(k as int));
            assert(ilspec.take(k + 1).last() == ilspec[k as int]);
            assert(out@.map_values(|p: String| p@) =~~= base_spec + spec_paths_list(
                res,
                (fuel - 1) as nat,
                ilspec.take(k + 1),
                omit,
            ));
        }
        k = k + 1;
    }
    proof {
        assert(ilspec.take(ilspec.len() as int) =~= ilspec);
        assert(out@.map_values(|p: String| p@) =~~= spec_paths(res, fuel as nat, idx, omit));
    }
    out
}

/// The doc string an entry carries.
pub open spec fn spec_desc(item: RawItem) -> Seq<char> {
    match item.docs {
        Option::Some(d) => d@,
        Option::None => Seq::<char>::empty(),
    }
}

/// The recursion budget path generation runs under: one more than the node
/// count, enough for any acyclic chain.
pub open spec fn path_fuel(r: Resolution) -> nat {
    r.items.len() + 1
}

/// One entry per path, all sharing a name, an anchor and a description.
pub open spec fn entries_from_paths(
    paths: Seq<Seq<char>>,
    name: SpecTypeItem,
    link: SpecLink,
    desc: Seq<char>,
) -> Seq<SpecEntry> {
    paths.map_values(|p: Seq<char>| SpecEntry { name, link, path: p, desc })
}

/// Whether positional fields shape this payload; their members have no
/// stable per-field anchor and are excluded.
pub open spec fn spec_tuple_shaped(item: RawItem) -> bool {
    match item.inner {
        ItemPayload::Struct { kind: StructKind::Tuple { .. }, .. } => true,
        ItemPayload::Variant { kind: VariantKind::Tuple { .. } } => true,
        _ => false,
    }
}

/// The entries an associated member projects: one batch per owner, the
/// owners being every re-exporter of the owning type and then the type
/// itself, each anchored on the owner's page under the owner's name.
pub open spec fn spec_assoc_entries(
    r: Resolution,
    kinds: Seq<DocItemKind>,
    idx: usize,
    tp: usize,
    sub: Option<usize>,
    owners: Seq<usize>,
) -> Seq<SpecEntry>
    decreases owners.len(),
{
    if owners.len() == 0 {
        Seq::<SpecEntry>::empty()
    } else {
        spec_assoc_entries(r, kinds, idx, tp, sub, owners.drop_last()) + {
            let o = owners.last();
            let page = SpecTypeItem { kind: kinds[tp as int], name: r.names[o as int] };
            let link = match sub {
                Option::None => SpecLink::AssociateItem { page_item: page },
                Option::Some(ai) => SpecLink::SubAssociateItem {
                    page_item: page,
                    parent: SpecTypeItem { kind: kinds[ai as int], name: r.names[ai as int] },
                },
            };
            entries_from_paths(
                spec_paths(r, path_fuel(r), o, true),
                SpecTypeItem { kind: kinds[idx as int], name: r.names[idx as int] },
                link,
                spec_desc(r.items[idx as int]),
            )
        }
    }
}

/// The entries one node contributes, in emission order.  Imports, impl
/// blocks, restricted nodes, unclassified nodes and positional fields
/// contribute nothing.
pub open spec fn spec_entries_for(r: Resolution, kinds: Seq<DocItemKind>, idx: usize) -> Seq<
    SpecEntry,
> {
    let it = r.items[idx as int];
    if it.visibility is Restricted {
        Seq::<SpecEntry>::empty()
    } else if it.inner matches ItemPayload::Import { .. } {
        Seq::<SpecEntry>::empty()
    } else if it.inner matches ItemPayload::Impl { .. } {
        Seq::<SpecEntry>::empty()
    } else {
        match r.parents[idx as int] {
            Option::None => Seq::<SpecEntry>::empty(),
            Option::Some(ParentLink::AssociatedChild { type_parent }) => {
                if !(type_parent < r.items.len()) || spec_tuple_shaped(
                    r.items[type_parent as int],
                ) {
                    Seq::<SpecEntry>::empty()
                } else {
                    spec_assoc_entries(
                        r,
                        kinds,
                        idx,
                        type_parent,
                        None,
                        r.imps[type_parent as int] + seq![type_parent],
                    )
                }
            },
            Option::Some(ParentLink::SubAssociatedChild { type_parent, associated_item }) => {
                if !(type_parent < r.items.len()) || !(associated_item < r.items.len()) {
                    Seq::<SpecEntry>::empty()
                } else {
                    spec_assoc_entries(
                        r,
                        kinds,
                        idx,
                        type_parent,
                        Some(associated_item),
                        r.imps[type_parent as int] + seq![type_parent],
                    )
                }
            },
            _ => {
                let link = if kinds[idx as int] == DocItemKind::Module {
                    SpecLink::Index
                } else {
                    SpecLink::Page
                };
                entries_from_paths(
                    spec_paths(r, path_fuel(r), idx, true),
                    SpecTypeItem { kind: kinds[idx as int], name: r.names[idx as int] },
                    link,
                    spec_desc(r.items[idx as int]),
                )
            },
        }
    }
}

/// The sorted entry set after the first `k` nodes contributed.
pub open spec fn spec_set_upto(r: Resolution, kinds: Seq<DocItemKind>, k: int) -> Seq<SpecEntry>
    decreases k,
{
    if k <= 0 {
        Seq::<SpecEntry>::empty()
    } else {
        spec_insert_all(
            spec_set_upto(r, kinds, k - 1),
            spec_entries_for(r, kinds, (k - 1) as usize),
        )
    }
}

/// The complete sorted entry set of a graph: what resolution produces.
pub open spec fn spec_entry_set(items: Seq<RawItem>, root: u64) -> Seq<SpecEntry> {
    spec_set_upto(
        spec_resolution(items, root),
        spec_classify(items, root).kinds,
        items.len() as int,
    )
}

/// Builds the entries of one node whose paths and anchors are known.
fn entries_from_paths_exec(
    paths: &Vec<String>,
    name: &TypeItem,
    link: &LinkType,
    desc: &String,
) -> (es: Vec<DocItem>)
    ensures
        es@.map_values(|d: DocItem| d@) == entries_from_paths(
            paths@.map_values(|p: String| p@),
            name@,
            link@,
            desc@,
        ),
{
    let ghost pspec = paths@.map_values(|p: String| p@);
    let mut es: Vec<DocItem> = Vec::new();
    let mut m: usize = 0;
    proof {
        assert(es@.map_values(|d: DocItem| d@) =~~= entries_from_paths(
            pspec.take(0),
            name@,
            link@,
            desc@,
        ));
    }
    while m < paths.len()
        invariant
            m <= paths@.len(),
            pspec == paths@.map_values(|p: String| p@),
            es@.len() == m,
            es@.map_values(|d: DocItem| d@) == entries_from_paths(
                pspec.take(m as int),
                name@,
                link@,
                desc@,
            ),
        decreases paths@.len() - m,
    {
        proof {
            assert(pspec[m as int] == paths@[m as int]@);
        }
        let ghost prev = es@;
        es.push(
            DocItem {
                name: name.duplicate(),
                link_type: link.duplicate(),
                path: paths[m].clone(),
                desc: desc.clone(),
            },
        );
        proof {
            let lhs = es@.map_values(|d: DocItem| d@);
            let rhs = entries_from_paths(pspec.take(m + 1), name@, link@, desc@);
            assert(es@ == prev.push(es@[m as int]));
            assert(lhs.len() == m + 1);
            assert(rhs.len() == m + 1);
            assert(es@[m as int]@ =~~= (SpecEntry {
                name: name@,
                link: link@,
                path: pspec[m as int],
                desc: desc@,
            }));
            assert(rhs[m as int] =~~= (SpecEntry {
                name: name@,
                link: link@,
                path: pspec.take(m + 1)[m as int],
                desc: desc@,
            }));
            assert forall|i: int| 0 <= i < lhs.len() implies lhs[i] =~~= rhs[i] by {
                if i < m {
                    assert(lhs[i] == prev.map_values(|d: DocItem| d@)[i]);
                    assert(prev.map_values(|d: DocItem| d@)[i] == entries_from_paths(
                        pspec.take(m as int),
                        name@,
                        link@,
                        desc@,
                    )[i]);
                }
            }
            assert(lhs =~~= rhs);
            assert(es@.map_values(|d: DocItem| d@) == rhs);
        }
        m = m + 1;
    }
    proof {
        assert(pspec.take(pspec.len() as int) =~= pspec);
    }
    es
}

/// Projects one associated member to its entries across every owner.
fn assoc_entries_exec(
    items: &Vec<RawItem>,
    names: &Vec<String>,
    parents: &Vec<Option<ParentLink>>,
    kinds: &Vec<DocItemKind>,
    imps: &Vec<Vec<usize>>,
    Ghost(res): Ghost<Resolution>,
    idx: usize,
    tp: usize,
    sub: Option<usize>,
) -> (es: Vec<DocItem>)
    requires
        res.items == items@,
        res.names == names@.map_values(|n: String| n@),
        res.parents == parents@,
        res.imps == imps@.map_values(|v: Vec<usize>| v@),
        names@.len() == items@.len(),
        parents@.len() == items@.len(),
        imps@.len() == items@.len(),
        kinds@.len() == items@.len(),
        idx < items@.len(),
        tp < items@.len(),
        items@.len() < usize::MAX,
        res.imps[tp as int].len() <= items@.len(),
        forall|e: int|
            0 <= e < res.imps[tp as int].len() ==> (#[trigger] res.imps[tp as int][e])
                < items@.len(),
        match sub {
            Option::Some(ai) => ai < items@.len(),
            Option::None => true,
        },
    ensures
        es@.map_values(|d: DocItem| d@) == spec_assoc_entries(
            res,
            kinds@,
            idx,
            tp,
            sub,
            res.imps[tp as int] + seq![tp],
        ),
{
    let ghost owners: Seq<usize> = res.imps[tp as int] + seq![tp];
    let fuel = items.len() + 1;
    let desc = match &items[idx].docs {
        Some(d) => d.clone(),
        None => String::new(),
    };
    let name = TypeItem { kind: kinds[idx], name: names[idx].clone() };
    proof {
        assert(name@ == (SpecTypeItem { kind: kinds@[idx as int], name: res.names[idx as int] }));
        assert(desc@ == spec_desc(res.items[idx as int]));
    }
    let mut es: Vec<DocItem> = Vec::new();
    let nimp = imps[tp].len();
    proof {
        assert(owners.len() == nimp + 1);
    }
    let mut k: usize = 0;
    proof {
        assert(es@.map_values(|d: DocItem| d@) =~~= spec_assoc_entries(
            res,
            kinds@,
            idx,
            tp,
            sub,
            owners.take(0),
        ));
    }
    while k < nimp + 1
        invariant
            k <= owners.len(),
            owners == res.imps[tp as int] + seq![tp],
            owners.len() == nimp + 1,
            nimp == imps@[tp as int]@.len(),
            res.items == items@,
            res.names == names@.map_values(|n: String| n@),
            res.parents == parents@,
            res.imps == imps@.map_values(|v: Vec<usize>| v@),
            names@.len() == items@.len(),
            parents@.len() == items@.len(),
            imps@.len() == items@.len(),
            kinds@.len() == items@.len(),
            idx < items@.len(),
            tp < items@.len(),
            items@.len() < usize::MAX,
            res.imps[tp as int].len() <= items@.len(),
            forall|e: int|
                0 <= e < res.imps[tp as int].len() ==> (#[trigger] res.imps[tp as int][e])
                    < items@.len(),
            fuel == items@.len() + 1,
            match sub {
                Option::Some(ai) => ai < items@.len(),
                Option::None => true,
            },
            name@ == (SpecTypeItem { kind: kinds@[idx as int], name: res.names[idx as int] }),
            desc@ == spec_desc(res.items[idx as int]),
            es@.map_values(|d: DocItem| d@) == spec_assoc_entries(
                res,
                kinds@,
                idx,
                tp,
                sub,
                owners.take(k as int),
            ),
        decreases nimp + 1 - k,
    {
        let owner: usize = if k < nimp {
            imps[tp][k]
        } else {
            tp
        };
        proof {
            assert(owner == owners[k as int]);
        }
        let paths = generate_path(items, names, parents, imps, Ghost(res), fuel, owner, true);
        let page = TypeItem { kind: kinds[tp], name: names[owner].clone() };
        let link = match sub {
            Some(ai) => LinkType::SubAssociateItem {
                page_item: page,
                parent: TypeItem { kind: kinds[ai], name: names[ai].clone() },
            },
            None => LinkType::AssociateItem { page_item: page },
        };
        let batch = entries_from_paths_exec(&paths, &name, &link, &desc);
        let mut b: usize = 0;
        let ghost base = es@.map_values(|d: DocItem| d@);
        let ghost bspec = batch@.map_values(|d: DocItem| d@);
        while b < batch.len()
            invariant
                b <= batch@.len(),
                bspec == batch@.map_values(|d: DocItem| d@),
                es@.len() == base.len() + b,
                es@.map_values(|d: DocItem| d@) == base + bspec.take(b as int),
            decreases batch@.len() - b,
        {
            let ghost prev = es@;
            es.push(batch[b].duplicate());
            proof {
                let lhs = es@.map_values(|d: DocItem| d@);
                let rhs = base + bspec.take(b + 1);
                assert(lhs.len() == rhs.len());
                assert forall|i: int| 0 <= i < lhs.len() implies lhs[i] == rhs[i] by {
                    if i < prev.len() {
                        assert(es@[i] == prev[i]);
                        assert(lhs[i] == prev.map_values(|d: DocItem| d@)[i]);
                        assert(prev.map_values(|d: DocItem| d@)[i] == (base + bspec.take(
                            b as int,
                        ))[i]);
                        if i >= base.len() {
                            assert((base + bspec.take(b as int))[i] == bspec.take(
                                b as int,
                            )[i - base.len()]);
                            assert(rhs[i] == bspec.take(b + 1)[i - base.len()]);
                            assert(bspec.take(b + 1)[i - base.len()] == bspec.take(
                                b as int,
                            )[i - base.len()]);
                        }
                    } else {
                        assert(es@[i] == prev.push(es@[prev.len() as int])[i]);
                        assert(lhs[i] == es@[prev.len() as int]@);
                        assert(es@[prev.len() as int]@ == bspec[b as int]);
                        assert(rhs[i] == bspec.take(b + 1)[b as int]);
                    }
                }
                assert(lhs =~~= rhs);
            }
            b = b + 1;
        }
        proof {
            assert(bspec.take(bspec.len() as int) =~= bspec);
            assert(owners.take(k + 1).drop_last() =~= owners.take(k as int));
            assert(owners.take(k + 1).last() == owners[k as int]);
            assert(es@.map_values(|d: DocItem| d@) =~~= spec_assoc_entries(
                res,
                kinds@,
                idx,
                tp,
                sub,
                owners.take(k + 1),
            ));
        }
        k = k + 1;
    }
    proof {
        assert(owners.take(owners.len() as int) =~= owners);
    }
    es
}

/// The entries one node contributes.
fn entries_for_node(
    items: &Vec<RawItem>,
    names: &Vec<String>,
    parents: &Vec<Option<ParentLink>>,
    kinds: &Vec<DocItemKind>,
    imps: &Vec<Vec<usize>>,
    Ghost(res): Ghost<Resolution>,
    idx: usize,
) -> (es: Vec<DocItem>)
    requires
        res.items == items@,
        res.names == names@.map_values(|n: String| n@),
        res.parents == parents@,
        res.imps == imps@.map_values(|v: Vec<usize>| v@),
        names@.len() == items@.len(),
        parents@.len() == items@.len(),
        imps@.len() == items@.len(),
        kinds@.len() == items@.len(),
        idx < items@.len(),
        items@.len() < usize::MAX,
        forall|t: int|
            0 <= t < items@.len() ==> (#[trigger] res.imps[t]).len() <= items@.len(),
        forall|t: int, e: int|
            0 <= t < items@.len() && 0 <= e < res.imps[t].len() ==> (#[trigger] res.imps[t][e])
                < items@.len(),
    ensures
        es@.map_values(|d: DocItem| d@) == spec_entries_for(res, kinds@, idx),
{
    if matches!(items[idx].visibility, Visibility::Restricted) {
        return Vec::new();
    }
    if matches!(items[idx].inner, ItemPayload::Import { .. }) {
        return Vec::new();
    }
    if matches!(items[idx].inner, ItemPayload::Impl { .. }) {
        return Vec::new();
    }
    match &parents[idx] {
        None => Vec::new(),
        Some(ParentLink::AssociatedChild { type_parent }) => {
            let tp = *type_parent;
            if tp >= items.len() {
                return Vec::new();
            }
            let tuple_shaped = match &items[tp].inner {
                ItemPayload::Struct { kind: StructKind::Tuple { .. }, .. } => true,
                ItemPayload::Variant { kind: VariantKind::Tuple { .. } } => true,
                _ => false,
            };
            if tuple_shaped {
                return Vec::new();
            }
            assoc_entries_exec(items, names, parents, kinds, imps, Ghost(res), idx, tp, None)
        },
        Some(ParentLink::SubAssociatedChild { type_parent, associated_item }) => {
            let tp = *type_parent;
            let ai = *associated_item;
            if tp >= items.len() || ai >= items.len() {
                return Vec::new();
            }
            assoc_entries_exec(items, names, parents, kinds, imps, Ghost(res), idx, tp, Some(ai))
        },
        Some(_) => {
            let fuel = items.len() + 1;
            let paths = generate_path(items, names, parents, imps, Ghost(res), fuel, idx, true);
            let name = TypeItem { kind: kinds[idx], name: names[idx].clone() };
            let link = if matches!(kinds[idx], DocItemKind::Module) {
                LinkType::Index
            } else {
                LinkType::Page
            };
            let desc = match &items[idx].docs {
                Some(d) => d.clone(),
                None => String::new(),
            };
            entries_from_paths_exec(&paths, &name, &link, &desc)
        },
    }
}

impl RustDoc {
    /// Resolves a raw graph into the sorted entry set.
    ///
    /// Accepts exactly one format version and rejects all others before any
    /// processing; on acceptance the result is the entry set the resolution
    /// of the graph determines, so equal graphs always yield equal sets.
    pub fn from_graph(c: &RawCrate) -> (r: Result<RustDoc, RustDocParseError>)
        requires
            c.items@.len() < usize::MAX,
        ensures
            r is Ok <==> c.format_version == SUPPORTED_FORMAT_VERSION,
            r matches Err(e) ==> e == RustDocParseError::UnsupportedFormatVersion(
                c.format_version,
            ),
            r matches Ok(d) ==> d@ == spec_entry_set(c.items@, c.root) && d.wf(),
    {
        if c.format_version != SUPPORTED_FORMAT_VERSION {
            return Err(RustDocParseError::UnsupportedFormatVersion(c.format_version));
        }
        let items = &c.items;
        let imps = resolve_imports(items);
        let (parents, kinds) = classify(items, c.root);
        let names = compute_names(items);
        let ghost res = spec_resolution(items@, c.root);
        proof {
            assert(res.names =~= names@.map_values(|n: String| n@));
            assert(imps@.map_values(|v: Vec<usize>| v@).len() == imps@.len());
            lemma_imports_bounded(items@, items@.len() as int);
            assert(res.imps == spec_imports_upto(items@, items@.len() as int));
            assert forall|t: int| 0 <= t < items@.len() implies (#[trigger] res.imps[t]).len()
                <= items@.len() by {
                assert(spec_imports_upto(items@, items@.len() as int)[t].len() <= items@.len());
            }
            assert forall|t: int, e: int|
                0 <= t < items@.len() && 0 <= e < res.imps[t].len() implies (#[trigger] res.imps[t][e])
                < items@.len() by {
                assert(spec_imports_upto(items@, items@.len() as int)[t][e] < items@.len());
            }
        }
        let mut rd = RustDoc::new(Vec::new());
        proof {
            assert(Seq::<DocItem>::empty().map_values(|d: DocItem| d@)
                =~= Seq::<SpecEntry>::empty());
            assert(rd@ == spec_set_upto(res, kinds@, 0));
        }
        let mut idx: usize = 0;
        while idx < items.len()
            invariant
                idx <= items@.len(),
                items@ == c.items@,
                res == spec_resolution(items@, c.root),
                res.items == items@,
                res.names == names@.map_values(|n: String| n@),
                res.parents == parents@,
                res.imps == imps@.map_values(|v: Vec<usize>| v@),
                names@.len() == items@.len(),
                parents@.len() == items@.len(),
                imps@.len() == items@.len(),
                kinds@.len() == items@.len(),
                kinds@ == spec_classify(items@, c.root).kinds,
                items@.len() < usize::MAX,
                forall|t: int|
                    0 <= t < items@.len() ==> (#[trigger] res.imps[t]).len() <= items@.len(),
                forall|t: int, e: int|
                    0 <= t < items@.len() && 0 <= e < res.imps[t].len()
                        ==> (#[trigger] res.imps[t][e]) < items@.len(),
                rd@ == spec_set_upto(res, kinds@, idx as int),
                rd.wf(),
            decreases items@.len() - idx,
        {
            let es = entries_for_node(items, &names, &parents, &kinds, &imps, Ghost(res), idx);
            rd.extend(es);
            idx = idx + 1;
        }
        Ok(rd)
    }
}

/// The back-reference table always has one list per node.
pub proof fn lemma_imports_len(items: Seq<RawItem>, k: int)
    requires
        items.len() <= usize::MAX,
    ensures
        spec_imports_upto(items, k).len() == items.len(),
    decreases k,
{
    if k > 0 {
        lemma_imports_len(items, k - 1);
        match spec_import_target(items, k - 1) {
            Option::Some(t) => {
                match items[k - 1].inner {
                    ItemPayload::Import { id: tgt, .. } => match tgt {
                        Option::Some(t2) => lemma_chain_in_range(items, t2, items.len()),
                        Option::None => {},
                    },
                    _ => {},
                }
            },
            Option::None => {},
        }
    }
}

/// Back-reference lists are short and name positions inside the graph.
pub proof fn lemma_imports_bounded(items: Seq<RawItem>, k: int)
    requires
        0 <= k <= items.len(),
        items.len() <= usize::MAX,
    ensures
        spec_imports_upto(items, k).len() == items.len(),
        forall|t: int|
            0 <= t < items.len() ==> (#[trigger] spec_imports_upto(items, k)[t]).len() <= k,
        forall|t: int, e: int|
            0 <= t < items.len() && 0 <= e < spec_imports_upto(items, k)[t].len()
                ==> (#[trigger] spec_imports_upto(items, k)[t][e]) < items.len(),
    decreases k,
{
    lemma_imports_len(items, k);
    if k > 0 {
        lemma_imports_bounded(items, k - 1);
        match spec_import_target(items, k - 1) {
            Option::Some(t) => {
                match items[k - 1].inner {
                    ItemPayload::Import { id: tgt, .. } => match tgt {
                        Option::Some(t2) => lemma_chain_in_range(items, t2, items.len()),
                        Option::None => {},
                    },
                    _ => {},
                }
            },
            Option::None => {},
        }
    }
}

/// Visibility pruning: a node with restricted visibility yields no paths
/// at all — neither as an entry of its own nor as a prefix or an owner
/// anchor for anything that would reach through it — and contributes no
/// entries to the catalogue.
pub proof fn lemma_visibility_pruning(
    r: Resolution,
    kinds: Seq<DocItemKind>,
    fuel: nat,
    idx: usize,
    omit: bool,
)
    requires
        idx < r.items.len(),
        r.items[idx as int].visibility is Restricted,
    ensures
        spec_paths(r, fuel, idx, omit) == Seq::<Seq<char>>::empty(),
        spec_entries_for(r, kinds, idx) == Seq::<SpecEntry>::empty(),
{
}

/// Visibility pruning for owners: a restricted type anchors nothing
/// through its own place; the owner set's batch for the type itself is
/// empty, so any anchor on it can only come from a public re-export.
pub proof fn lemma_restricted_owner_anchors_nothing(
    r: Resolution,
    kinds: Seq<DocItemKind>,
    idx: usize,
    tp: usize,
    sub: Option<usize>,
)
    requires
        tp < r.items.len(),
        r.items[tp as int].visibility is Restricted,
    ensures
        spec_assoc_entries(r, kinds, idx, tp, sub, seq![tp]) == Seq::<SpecEntry>::empty(),
{
    let owners: Seq<usize> = seq![tp];
    assert(owners.drop_last() =~= Seq::<usize>::empty());
    lemma_visibility_pruning(r, kinds, path_fuel(r), tp, true);
    assert(spec_assoc_entries(r, kinds, idx, tp, sub, Seq::<usize>::empty())
        == Seq::<SpecEntry>::empty());
    assert(spec_assoc_entries(r, kinds, idx, tp, sub, owners.drop_last())
        == Seq::<SpecEntry>::empty());
    assert(owners.last() == tp);
    assert(spec_assoc_entries(r, kinds, idx, tp, sub, owners) =~= Seq::<SpecEntry>::empty());
}

/// Re-export fan-out: every path a re-exporting node generates is also a
/// path of the node it re-exports, so a symbol reachable through several
/// distinct re-export chains carries one path per chain.
pub proof fn lemma_reexport_fanout(r: Resolution, fuel: nat, idx: usize, omit: bool, k: int)
    requires
        idx < r.items.len(),
        fuel > 0,
        !(r.items[idx as int].visibility is Restricted),
        0 <= k < r.imps[idx as int].len(),
    ensures
        forall|j: int|
            0 <= j < spec_paths(r, (fuel - 1) as nat, r.imps[idx as int][k], omit).len()
                ==> spec_paths(r, fuel, idx, omit).contains(
                #[trigger] spec_paths(r, (fuel - 1) as nat, r.imps[idx as int][k], omit)[j],
            ),
{
    let sub = spec_paths(r, (fuel - 1) as nat, r.imps[idx as int][k], omit);
    let whole = spec_paths(r, fuel, idx, omit);
    let lst = spec_paths_list(r, (fuel - 1) as nat, r.imps[idx as int], omit);
    lemma_paths_list_contains(r, (fuel - 1) as nat, r.imps[idx as int], omit, k);
    assert forall|j: int| 0 <= j < sub.len() implies whole.contains(#[trigger] sub[j]) by {
        assert(lst.contains(sub[j]));
        let w = choose|w: int| 0 <= w < lst.len() && lst[w] == sub[j];
        assert(whole[whole.len() - lst.len() + w] == sub[j]);
    }
}

/// Each member of a list of importing nodes contributes all of its paths
/// to the list's combined paths.
proof fn lemma_paths_list_contains(r: Resolution, fuel: nat, ids: Seq<usize>, omit: bool, k: int)
    requires
        0 <= k < ids.len(),
    ensures
        forall|j: int|
            0 <= j < spec_paths(r, fuel, ids[k], omit).len() ==> spec_paths_list(
                r,
                fuel,
                ids,
                omit,
            ).contains(#[trigger] spec_paths(r, fuel, ids[k], omit)[j]),
    decreases ids.len(),
{
    let sub = spec_paths(r, fuel, ids[k], omit);
    let lst = spec_paths_list(r, fuel, ids, omit);
    if k == ids.len() - 1 {
        let prefix = spec_paths_list(r, fuel, ids.drop_last(), omit);
        assert forall|j: int| 0 <= j < sub.len() implies lst.contains(#[trigger] sub[j]) by {
            assert(lst[prefix.len() + j] == sub[j]);
        }
    } else {
        lemma_paths_list_contains(r, fuel, ids.drop_last(), omit, k);
        assert(ids.drop_last()[k] == ids[k]);
        let prefix = spec_paths_list(r, fuel, ids.drop_last(), omit);
        assert forall|j: int| 0 <= j < sub.len() implies lst.contains(#[trigger] sub[j]) by {
            assert(prefix.contains(sub[j]));
            let w = choose|w: int| 0 <= w < prefix.len() && prefix[w] == sub[j];
            assert(lst[w] == sub[j]);
        }
    }
}

} // verus!
