//! Catalogue entries, the sorted entry set, the range index and the search
//! engine.
//!
//! A [`DocItem`] is one addressable documentation unit at one canonical
//! path.  [`RustDoc`] keeps the deduplicated entries in a strictly sorted
//! vector; [`RustDocSeeker`] adds a key-to-range index over the sorted
//! entries and answers matcher queries in sorted order.

use crate::automaton::Matcher;
use crate::text::{lemma_lex_transitive, lemma_lex_trichotomy, lex_compare, lex_lt, push_char,
    push_str};
use vstd::prelude::*;
use vstd::string::StrSliceExecFns;
use vstd::utf8::encode_utf8;

verus! {

/// The display kind of a documentation item.
#[derive(Clone, Copy, Debug, PartialEq, Eq, Structural)]
pub enum DocItemKind {
    Module,
    ExternCrate,
    Import,
    Struct,
    Enum,
    Function,
    Typedef,
    Static,
    Trait,
    TraitAlias,
    Impl,
    TyMethod,
    Method,
    StructField,
    Variant,
    Macro,
    AttributeMacro,
    DeriveMacro,
    Primitive,
    AssociatedType,
    Constant,
    AssociatedConst,
    Union,
    ForeignType,
    Keyword,
    Existential,
}

/// The short name a kind is rendered under in anchors and locators.
pub open spec fn kind_chars(k: DocItemKind) -> Seq<char> {
    match k {
        DocItemKind::Module => "module"@,
        DocItemKind::ExternCrate => "externcrate"@,
        DocItemKind::Import => "import"@,
        DocItemKind::Struct => "struct"@,
        DocItemKind::Enum => "enum"@,
        DocItemKind::Function => "fn"@,
        DocItemKind::Typedef => "type"@,
        DocItemKind::Static => "static"@,
        DocItemKind::Trait => "trait"@,
        DocItemKind::TraitAlias => "traitalias"@,
        DocItemKind::Impl => "impl"@,
        DocItemKind::TyMethod => "tymethod"@,
        DocItemKind::Method => "method"@,
        DocItemKind::StructField => "structfield"@,
        DocItemKind::Variant => "variant"@,
        DocItemKind::Macro => "macro"@,
        DocItemKind::AttributeMacro => "attr"@,
        DocItemKind::DeriveMacro => "derive"@,
        DocItemKind::Primitive => "primitive"@,
        DocItemKind::AssociatedType => "associatedtype"@,
        DocItemKind::Constant => "constant"@,
        DocItemKind::AssociatedConst => "associatedconst"@,
        DocItemKind::Union => "union"@,
        DocItemKind::ForeignType => "foreigntype"@,
        DocItemKind::Keyword => "keyword"@,
        DocItemKind::Existential => "existential"@,
    }
}

impl DocItemKind {
    /// The short name this kind is rendered under.
    pub fn as_str(&self) -> (r: &'static str)
        ensures
            r@ == kind_chars(*self),
    {
        match self {
            DocItemKind::Module => "module",
            DocItemKind::ExternCrate => "externcrate",
            DocItemKind::Import => "import",
            DocItemKind::Struct => "struct",
            DocItemKind::Enum => "enum",
            DocItemKind::Function => "fn",
            DocItemKind::Typedef => "type",
            DocItemKind::Static => "static",
            DocItemKind::Trait => "trait",
            DocItemKind::TraitAlias => "traitalias",
            DocItemKind::Impl => "impl",
            DocItemKind::TyMethod => "tymethod",
            DocItemKind::Method => "method",
            DocItemKind::StructField => "structfield",
            DocItemKind::Variant => "variant",
            DocItemKind::Macro => "macro",
            DocItemKind::AttributeMacro => "attr",
            DocItemKind::DeriveMacro => "derive",
            DocItemKind::Primitive => "primitive",
            DocItemKind::AssociatedType => "associatedtype",
            DocItemKind::Constant => "constant",
            DocItemKind::AssociatedConst => "associatedconst",
            DocItemKind::Union => "union",
            DocItemKind::ForeignType => "foreigntype",
            DocItemKind::Keyword => "keyword",
            DocItemKind::Existential => "existential",
        }
    }
}

/// An item together with its kind; identifies a page or a fragment owner.
pub struct TypeItem {
    pub kind: DocItemKind,
    pub name: String,
}

/// Mathematical image of a [`TypeItem`].
#[verifier::ext_equal]
pub struct SpecTypeItem {
    pub kind: DocItemKind,
    pub name: Seq<char>,
}

impl View for TypeItem {
    type V = SpecTypeItem;

    open spec fn view(&self) -> SpecTypeItem {
        SpecTypeItem { kind: self.kind, name: self.name@ }
    }
}

impl TypeItem {
    /// An equal copy.
    pub fn duplicate(&self) -> (r: TypeItem)
        ensures
            r == *self,
    {
        TypeItem { kind: self.kind, name: self.name.clone() }
    }
}

/// Where within a page an entry resides.
pub enum LinkType {
    /// A module landing page.
    Index,
    /// A standalone page.
    Page,
    /// A fragment on the owning type's page.
    AssociateItem { page_item: TypeItem },
    /// A fragment nested under an intermediate container, such as a field
    /// of a struct-style enum variant.
    SubAssociateItem { page_item: TypeItem, parent: TypeItem },
}

/// Mathematical image of a [`LinkType`].
#[verifier::ext_equal]
pub enum SpecLink {
    Index,
    Page,
    AssociateItem { page_item: SpecTypeItem },
    SubAssociateItem { page_item: SpecTypeItem, parent: SpecTypeItem },
}

impl View for LinkType {
    type V = SpecLink;

    open spec fn view(&self) -> SpecLink {
        match self {
            LinkType::Index => SpecLink::Index,
            LinkType::Page => SpecLink::Page,
            LinkType::AssociateItem { page_item } => SpecLink::AssociateItem {
                page_item: page_item@,
            },
            LinkType::SubAssociateItem { page_item, parent } => SpecLink::SubAssociateItem {
                page_item: page_item@,
                parent: parent@,
            },
        }
    }
}

impl LinkType {
    /// An equal copy.
    pub fn duplicate(&self) -> (r: LinkType)
        ensures
            r@ == self@,
    {
        match self {
            LinkType::Index => LinkType::Index,
            LinkType::Page => LinkType::Page,
            LinkType::AssociateItem { page_item } => LinkType::AssociateItem {
                page_item: page_item.duplicate(),
            },
            LinkType::SubAssociateItem { page_item, parent } => LinkType::SubAssociateItem {
                page_item: page_item.duplicate(),
                parent: parent.duplicate(),
            },
        }
    }
}

/// One searchable catalogue entry.
pub struct DocItem {
    pub name: TypeItem,
    pub link_type: LinkType,
    pub path: String,
    pub desc: String,
}

/// Mathematical image of a [`DocItem`].
#[verifier::ext_equal]
pub struct SpecEntry {
    pub name: SpecTypeItem,
    pub link: SpecLink,
    pub path: Seq<char>,
    pub desc: Seq<char>,
}

impl View for DocItem {
    type V = SpecEntry;

    open spec fn view(&self) -> SpecEntry {
        SpecEntry { name: self.name@, link: self.link_type@, path: self.path@, desc: self.desc@ }
    }
}

/// The byte sequence an entry is indexed and matched under.
pub open spec fn entry_key(e: SpecEntry) -> Seq<u8> {
    encode_utf8(e.name.name)
}

/// The bytes of an entry's path, the secondary sort key.
pub open spec fn path_key(e: SpecEntry) -> Seq<u8> {
    encode_utf8(e.path)
}

/// The bytes of the owning page's name, the tertiary sort key.
pub open spec fn parent_key(e: SpecEntry) -> Option<Seq<u8>> {
    match e.link {
        SpecLink::Index => None,
        SpecLink::Page => None,
        SpecLink::AssociateItem { page_item } => Some(encode_utf8(page_item.name)),
        SpecLink::SubAssociateItem { page_item, parent } => Some(encode_utf8(page_item.name)),
    }
}

/// Order on optional owner keys: absent sorts before present.
pub open spec fn opt_key_lt(a: Option<Seq<u8>>, b: Option<Seq<u8>>) -> bool {
    match (a, b) {
        (Option::None, Option::Some(_)) => true,
        (Option::Some(x), Option::Some(y)) => lex_lt(x, y),
        _ => false,
    }
}

/// The total order of the catalogue: search key bytes, then path bytes,
/// then the owning page's name.
pub open spec fn entry_lt(a: SpecEntry, b: SpecEntry) -> bool {
    lex_lt(entry_key(a), entry_key(b)) || (entry_key(a) == entry_key(b) && (lex_lt(
        path_key(a),
        path_key(b),
    ) || (path_key(a) == path_key(b) && opt_key_lt(parent_key(a), parent_key(b)))))
}

/// Two entries the order cannot tell apart; such entries are duplicates in
/// the entry set.
pub open spec fn entry_ord_eq(a: SpecEntry, b: SpecEntry) -> bool {
    entry_key(a) == entry_key(b) && path_key(a) == path_key(b) && parent_key(a) == parent_key(b)
}

/// The entry order is a total order with respect to `entry_ord_eq`.
pub proof fn lemma_entry_trichotomy(a: SpecEntry, b: SpecEntry)
    ensures
        entry_lt(a, b) || entry_lt(b, a) || entry_ord_eq(a, b),
        entry_lt(a, b) ==> !entry_lt(b, a) && !entry_ord_eq(a, b),
        entry_lt(b, a) ==> !entry_lt(a, b) && !entry_ord_eq(a, b),
{
    lemma_lex_trichotomy(entry_key(a), entry_key(b));
    lemma_lex_trichotomy(path_key(a), path_key(b));
    match (parent_key(a), parent_key(b)) {
        (Option::Some(x), Option::Some(y)) => lemma_lex_trichotomy(x, y),
        _ => (),
    }
}

/// The entry order is transitive.
pub proof fn lemma_entry_transitive(a: SpecEntry, b: SpecEntry, c: SpecEntry)
    requires
        entry_lt(a, b),
        entry_lt(b, c),
    ensures
        entry_lt(a, c),
{
    if lex_lt(entry_key(a), entry_key(b)) && lex_lt(entry_key(b), entry_key(c)) {
        lemma_lex_transitive(entry_key(a), entry_key(b), entry_key(c));
    } else if entry_key(a) == entry_key(b) && entry_key(b) == entry_key(c) {
        if lex_lt(path_key(a), path_key(b)) && lex_lt(path_key(b), path_key(c)) {
            lemma_lex_transitive(path_key(a), path_key(b), path_key(c));
        } else if path_key(a) == path_key(b) && path_key(b) == path_key(c) {
            match (parent_key(a), parent_key(b), parent_key(c)) {
                (Option::Some(x), Option::Some(y), Option::Some(z)) => {
                    lemma_lex_transitive(x, y, z);
                },
                _ => (),
            }
        }
    }
}

impl DocItem {
    /// The identifier of the entry.
    pub fn name(&self) -> (r: &str)
        ensures
            r@ == self.name.name@,
    {
        self.name.name.as_str()
    }

    /// The kind of the entry.
    pub fn kind(&self) -> (r: DocItemKind)
        ensures
            r == self.name.kind,
    {
        self.name.kind
    }

    /// The documentation string of the entry.
    pub fn desc(&self) -> (r: &str)
        ensures
            r@ == self.desc@,
    {
        self.desc.as_str()
    }

    /// An equal copy.
    pub fn duplicate(&self) -> (r: DocItem)
        ensures
            r@ == self@,
    {
        DocItem {
            name: self.name.duplicate(),
            link_type: self.link_type.duplicate(),
            path: self.path.clone(),
            desc: self.desc.clone(),
        }
    }

    /// The owning page's name, when the entry is a fragment.
    fn parent_name(&self) -> (r: Option<&String>)
        ensures
            match r {
                Option::Some(s) => parent_key(self@) == Some(encode_utf8(s@)),
                Option::None => parent_key(self@) is None,
            },
    {
        match &self.link_type {
            LinkType::Index => None,
            LinkType::Page => None,
            LinkType::AssociateItem { page_item } => Some(&page_item.name),
            LinkType::SubAssociateItem { page_item, parent } => Some(&page_item.name),
        }
    }
}

/// Compares two entries in catalogue order; the result says which comes
/// first, or that the order cannot tell them apart.
pub fn entry_cmp(a: &DocItem, b: &DocItem) -> (r: i8)
    ensures
        r == -1 ==> entry_lt(a@, b@),
        r == 0 ==> entry_ord_eq(a@, b@),
        r == 1 ==> entry_lt(b@, a@),
        r == -1 || r == 0 || r == 1,
{
    let k = lex_compare(a.name.name.as_str().as_bytes(), b.name.name.as_str().as_bytes());
    if k != 0 {
        return k;
    }
    let p = lex_compare(a.path.as_str().as_bytes(), b.path.as_str().as_bytes());
    if p != 0 {
        return p;
    }
    match (a.parent_name(), b.parent_name()) {
        (Option::None, Option::None) => 0,
        (Option::None, Option::Some(_)) => -1,
        (Option::Some(_), Option::None) => 1,
        (Option::Some(x), Option::Some(y)) => lex_compare(x.as_str().as_bytes(), y.as_str().as_bytes()),
    }
}

/// `path` with every `::` separator replaced by `/` (leftmost-first, as
/// splitting on `::` and joining with `/` does).
pub open spec fn spec_slashed(p: Seq<char>) -> Seq<char>
    decreases p.len(),
{
    if p.len() >= 2 && p[0] == ':' && p[1] == ':' {
        seq!['/'] + spec_slashed(p.skip(2))
    } else if p.len() > 0 {
        seq![p[0]] + spec_slashed(p.skip(1))
    } else {
        Seq::<char>::empty()
    }
}

/// The `kind.Name` rendering of an item with its kind.
pub open spec fn spec_type_item_chars(t: SpecTypeItem) -> Seq<char> {
    kind_chars(t.kind) + "."@ + t.name
}

/// The slash-segmented relative locator of an entry.
pub open spec fn spec_url(e: SpecEntry) -> Seq<char> {
    spec_slashed(e.path) + seq!['/'] + match e.link {
        SpecLink::Index => e.name.name + "/index.html"@,
        SpecLink::Page => spec_type_item_chars(e.name) + ".html"@,
        SpecLink::AssociateItem { page_item } => spec_type_item_chars(page_item) + ".html#"@
            + spec_type_item_chars(e.name),
        SpecLink::SubAssociateItem { page_item, parent } => spec_type_item_chars(page_item)
            + ".html#"@ + spec_type_item_chars(parent) + "."@ + spec_type_item_chars(e.name),
    }
}

/// The fully qualified dotted rendering of an entry.
pub open spec fn spec_naive(e: SpecEntry) -> Seq<char> {
    e.path + "::"@ + (match e.link {
        SpecLink::Index => Seq::<char>::empty(),
        SpecLink::Page => Seq::<char>::empty(),
        SpecLink::AssociateItem { page_item } => page_item.name + "::"@,
        SpecLink::SubAssociateItem { page_item, parent } => page_item.name + "::"@ + parent.name
            + "::"@,
    }) + spec_type_item_chars(e.name)
}

impl TypeItem {
    /// The `kind.Name` rendering.
    pub fn render(&self) -> (r: String)
        ensures
            r@ == spec_type_item_chars(self@),
    {
        let mut out = String::new();
        append_type_item(&mut out, self);
        proof {
            assert(out@ =~= spec_type_item_chars(self@));
        }
        out
    }
}

/// Appends the `kind.Name` rendering of `t`.
fn append_type_item(out: &mut String, t: &TypeItem)
    ensures
        final(out)@ == old(out)@ + spec_type_item_chars(t@),
{
    push_str(out, t.kind.as_str());
    push_str(out, ".");
    push_str(out, t.name.as_str());
    proof {
        assert(out@ =~= old(out)@ + spec_type_item_chars(t@));
    }
}

impl DocItem {
    /// The slash-segmented relative locator: path segments joined by `/`,
    /// then the page file and fragment for this entry's anchor.
    pub fn fmt_url(&self) -> (r: String)
        ensures
            r@ == spec_url(self@),
    {
        let mut out = String::new();
        let p = self.path.as_str();
        let n = p.unicode_len();
        let mut i: usize = 0;
        proof {
            assert(p@.skip(0) =~= p@);
            assert(out@ + spec_slashed(p@) =~= spec_slashed(p@));
        }
        while i < n
            invariant
                i <= n,
                n == p@.len(),
                p@ == self.path@,
                out@ + spec_slashed(p@.skip(i as int)) == spec_slashed(p@),
            decreases n - i,
        {
            let c = p.get_char(i);
            let ghost rest = p@.skip(i as int);
            if i + 1 < n && c == ':' && p.get_char(i + 1) == ':' {
                push_char(&mut out, '/');
                proof {
                    assert(rest[0] == ':' && rest[1] == ':');
                    assert(rest.skip(2) =~= p@.skip(i + 2));
                    assert(spec_slashed(rest) == seq!['/'] + spec_slashed(p@.skip(i + 2)));
                    assert(out@ + spec_slashed(p@.skip(i + 2)) =~= spec_slashed(p@)) by {
                        assert(out@ =~= out@.drop_last().push('/'));
                        assert((out@.drop_last() + spec_slashed(rest)) == spec_slashed(p@));
                        assert(out@.drop_last() + (seq!['/'] + spec_slashed(p@.skip(i + 2)))
                            =~= out@ + spec_slashed(p@.skip(i + 2)));
                    }
                }
                i = i + 2;
            } else {
                push_char(&mut out, c);
                proof {
                    assert(rest.len() > 0 && rest[0] == c);
                    if rest.len() >= 2 && rest[0] == ':' && rest[1] == ':' {
                        assert(rest[1] == p@[i + 1]);
                        assert(false);
                    }
                    assert(rest.skip(1) =~= p@.skip(i + 1));
                    assert(spec_slashed(rest) == seq![c] + spec_slashed(p@.skip(i + 1)));
                    assert(out@ + spec_slashed(p@.skip(i + 1)) =~= spec_slashed(p@)) by {
                        assert(out@ =~= out@.drop_last().push(c));
                        assert((out@.drop_last() + spec_slashed(rest)) == spec_slashed(p@));
                        assert(out@.drop_last() + (seq![c] + spec_slashed(p@.skip(i + 1)))
                            =~= out@ + spec_slashed(p@.skip(i + 1)));
                    }
                }
                i = i + 1;
            }
        }
        proof {
            assert(p@.skip(n as int) =~= Seq::<char>::empty());
            assert(out@ + Seq::<char>::empty() =~= out@);
        }
        push_char(&mut out, '/');
        let ghost prefix = out@;
        proof {
            assert(prefix =~= spec_slashed(self.path@) + seq!['/']);
        }
        match &self.link_type {
            LinkType::Index => {
                push_str(&mut out, self.name.name.as_str());
                push_str(&mut out, "/index.html");
            },
            LinkType::Page => {
                append_type_item(&mut out, &self.name);
                push_str(&mut out, ".html");
            },
            LinkType::AssociateItem { page_item } => {
                append_type_item(&mut out, page_item);
                push_str(&mut out, ".html#");
                append_type_item(&mut out, &self.name);
            },
            LinkType::SubAssociateItem { page_item, parent } => {
                append_type_item(&mut out, page_item);
                push_str(&mut out, ".html#");
                append_type_item(&mut out, parent);
                push_str(&mut out, ".");
                append_type_item(&mut out, &self.name);
            },
        }
        proof {
            assert(out@ =~= spec_url(self@));
        }
        out
    }

    /// The fully qualified dotted rendering: the module path, the owning
    /// containers for fragments, then the entry's own `kind.Name`.
    pub fn fmt_naive(&self) -> (r: String)
        ensures
            r@ == spec_naive(self@),
    {
        let mut out = String::new();
        push_str(&mut out, self.path.as_str());
        push_str(&mut out, "::");
        match &self.link_type {
            LinkType::Index => {},
            LinkType::Page => {},
            LinkType::AssociateItem { page_item } => {
                push_str(&mut out, page_item.name.as_str());
                push_str(&mut out, "::");
            },
            LinkType::SubAssociateItem { page_item, parent } => {
                push_str(&mut out, page_item.name.as_str());
                push_str(&mut out, "::");
                push_str(&mut out, parent.name.as_str());
                push_str(&mut out, "::");
            },
        }
        append_type_item(&mut out, &self.name);
        proof {
            assert(out@ =~= spec_naive(self@));
        }
        out
    }
}

/// Strictly ascending in catalogue order; this implies the set holds no
/// two entries the order cannot tell apart.
pub open spec fn strictly_sorted(s: Seq<SpecEntry>) -> bool {
    forall|i: int, j: int| 0 <= i < j < s.len() ==> entry_lt(#[trigger] s[i], #[trigger] s[j])
}

/// Inserting into the sorted set: keeps the set unchanged when an entry the
/// order cannot tell from `e` is already present, else places `e` at its
/// position.
pub open spec fn spec_insert(s: Seq<SpecEntry>, e: SpecEntry) -> Seq<SpecEntry>
    decreases s.len(),
{
    if s.len() == 0 {
        seq![e]
    } else if entry_lt(s[0], e) {
        seq![s[0]] + spec_insert(s.drop_first(), e)
    } else if entry_ord_eq(s[0], e) {
        s
    } else {
        seq![e] + s
    }
}

/// Inserting each entry of `es` in turn.
pub open spec fn spec_insert_all(s: Seq<SpecEntry>, es: Seq<SpecEntry>) -> Seq<SpecEntry>
    decreases es.len(),
{
    if es.len() == 0 {
        s
    } else {
        spec_insert(spec_insert_all(s, es.drop_last()), es.last())
    }
}

/// When everything before `pos` comes before `e` and `s[pos]` duplicates
/// `e`, inserting changes nothing.
proof fn lemma_insert_found(s: Seq<SpecEntry>, e: SpecEntry, pos: int)
    requires
        0 <= pos < s.len(),
        forall|i: int| 0 <= i < pos ==> entry_lt(#[trigger] s[i], e),
        entry_ord_eq(s[pos], e),
    ensures
        spec_insert(s, e) == s,
    decreases pos,
{
    if pos == 0 {
        lemma_entry_trichotomy(s[0], e);
    } else {
        assert(entry_lt(s[0], e));
        lemma_entry_trichotomy(s[0], e);
        lemma_insert_found(s.drop_first(), e, pos - 1);
        assert(spec_insert(s, e) =~= seq![s[0]] + s.drop_first());
        assert(seq![s[0]] + s.drop_first() =~= s);
    }
}

/// When everything before `pos` comes before `e` and `e` comes before
/// `s[pos]` (or `pos` is the end), inserting splices `e` in at `pos`.
proof fn lemma_insert_fresh(s: Seq<SpecEntry>, e: SpecEntry, pos: int)
    requires
        0 <= pos <= s.len(),
        forall|i: int| 0 <= i < pos ==> entry_lt(#[trigger] s[i], e),
        pos < s.len() ==> entry_lt(e, s[pos]),
    ensures
        spec_insert(s, e) == s.subrange(0, pos) + seq![e] + s.subrange(pos, s.len() as int),
    decreases pos,
{
    if s.len() == 0 {
        assert(spec_insert(s, e) =~= s.subrange(0, 0) + seq![e] + s.subrange(0, 0));
    } else if pos == 0 {
        lemma_entry_trichotomy(s[0], e);
        assert(spec_insert(s, e) =~= s.subrange(0, 0) + seq![e] + s.subrange(0, s.len() as int));
    } else {
        lemma_entry_trichotomy(s[0], e);
        lemma_insert_fresh(s.drop_first(), e, pos - 1);
        assert(s.drop_first().subrange(0, pos - 1) =~= s.subrange(1, pos));
        assert(s.drop_first().subrange(pos - 1, s.drop_first().len() as int) =~= s.subrange(
            pos,
            s.len() as int,
        ));
        assert(spec_insert(s, e) =~= s.subrange(0, pos) + seq![e] + s.subrange(
            pos,
            s.len() as int,
        ));
    }
}

/// The deduplicated, totally ordered entry set: the catalogue.
pub struct RustDoc {
    items: Vec<DocItem>,
}

impl View for RustDoc {
    type V = Seq<SpecEntry>;

    closed spec fn view(&self) -> Seq<SpecEntry> {
        self.items@.map_values(|d: DocItem| d@)
    }
}

impl RustDoc {
    /// The entries are strictly sorted in catalogue order.
    pub closed spec fn wf(self) -> bool {
        strictly_sorted(self@)
    }

    /// The well-formedness of the set is visible through its view.
    pub proof fn lemma_wf(self)
        requires
            self.wf(),
        ensures
            strictly_sorted(self@),
    {
    }

    /// Builds the entry set holding the given entries, deduplicated and
    /// sorted.
    pub fn new(items: Vec<DocItem>) -> (r: RustDoc)
        ensures
            r@ == spec_insert_all(Seq::<SpecEntry>::empty(), items@.map_values(|d: DocItem| d@)),
            r.wf(),
    {
        let mut r = RustDoc { items: Vec::new() };
        proof {
            assert(r@ =~= Seq::<SpecEntry>::empty());
        }
        r.extend(items);
        r
    }

    /// How many entries the set holds.
    pub fn len(&self) -> (r: usize)
        ensures
            r == self@.len(),
    {
        self.items.len()
    }

    /// The entry at a position, in sorted order.
    pub fn get(&self, i: usize) -> (r: &DocItem)
        requires
            i < self@.len(),
        ensures
            r@ == self@[i as int],
    {
        &self.items[i]
    }

    /// Inserts one entry at its sorted position; a duplicate (an entry the
    /// order cannot tell from `e`) leaves the set unchanged.
    pub fn insert(&mut self, e: DocItem)
        requires
            old(self).wf(),
        ensures
            final(self)@ == spec_insert(old(self)@, e@),
            final(self).wf(),
    {
        let ghost s = self@;
        let mut pos: usize = 0;
        while pos < self.items.len() && entry_cmp(&self.items[pos], &e) == -1
            invariant
                self@ == s,
                strictly_sorted(s),
                pos <= self.items.len(),
                self@.len() == self.items.len(),
                forall|i: int| 0 <= i < pos ==> entry_lt(#[trigger] s[i], e@),
            decreases self.items.len() - pos,
        {
            proof {
                assert(s[pos as int] == self.items@.map_values(|d: DocItem| d@)[pos as int]);
            }
            pos = pos + 1;
        }
        if pos < self.items.len() {
            let c = entry_cmp(&self.items[pos], &e);
            if c == 0 {
                proof {
                    lemma_insert_found(s, e@, pos as int);
                }
                return ;
            }
            proof {
                lemma_entry_trichotomy(s[pos as int], e@);
                lemma_insert_fresh(s, e@, pos as int);
            }
        } else {
            proof {
                lemma_insert_fresh(s, e@, pos as int);
            }
        }
        self.items.insert(pos, e);
        proof {
            assert(self@ =~= s.subrange(0, pos as int) + seq![e@] + s.subrange(
                pos as int,
                s.len() as int,
            ));
            let t = self@;
            assert forall|i: int, j: int| 0 <= i < j < t.len() implies entry_lt(
                #[trigger] t[i],
                #[trigger] t[j],
            ) by {
                if i < pos && j == pos {
                } else if i == pos && j > pos {
                    if pos < s.len() {
                        if j - 1 > pos {
                            lemma_entry_transitive(e@, s[pos as int], s[j - 1]);
                        }
                    }
                } else if i < pos && j > pos {
                    assert(entry_lt(s[i], s[j - 1]) || i == j - 1);
                    if i < j - 1 {
                    }
                }
            }
        }
    }

    /// Merges another catalogue into this one: the set union of the two
    /// entry sets, still sorted and deduplicated.  Combining corpora this
    /// way must precede index construction.
    pub fn merge(&mut self, other: &RustDoc)
        requires
            old(self).wf(),
        ensures
            final(self)@ == spec_insert_all(old(self)@, other@),
            final(self).wf(),
    {
        let ghost es = other@;
        let ghost s0 = self@;
        let mut k: usize = 0;
        while k < other.len()
            invariant
                k <= es.len(),
                es == other@,
                self@ == spec_insert_all(s0, es.take(k as int)),
                self.wf(),
            decreases es.len() - k,
        {
            self.insert(other.get(k).duplicate());
            proof {
                assert(es.take(k + 1).drop_last() =~= es.take(k as int));
                assert(es.take(k + 1).last() == es[k as int]);
            }
            k = k + 1;
        }
        proof {
            assert(es.take(es.len() as int) =~= es);
        }
    }

    /// Inserts every entry of `items` in turn.
    pub fn extend(&mut self, items: Vec<DocItem>)
        requires
            old(self).wf(),
        ensures
            final(self)@ == spec_insert_all(old(self)@, items@.map_values(|d: DocItem| d@)),
            final(self).wf(),
    {
        let ghost es = items@.map_values(|d: DocItem| d@);
        let ghost s0 = self@;
        let mut k: usize = 0;
        while k < items.len()
            invariant
                k <= items.len(),
                es == items@.map_values(|d: DocItem| d@),
                self@ == spec_insert_all(s0, es.take(k as int)),
                self.wf(),
            decreases items.len() - k,
        {
            self.insert(items[k].duplicate());
            proof {
                assert(es.take(k + 1).drop_last() =~= es.take(k as int));
                assert(es.take(k + 1).last() == es[k as int]);
            }
            k = k + 1;
        }
        proof {
            assert(es.take(items@.len() as int) =~= es);
        }
    }
}

/// Construction failed because the entry count exceeds what the packed
/// range encoding can represent.
#[derive(Debug, PartialEq, Eq, Structural)]
pub struct CapacityError;

/// The start offset packed in the upper half of a range value.
pub open spec fn rstart(v: u64) -> int {
    (v >> 32) as int
}

/// The end offset packed in the lower half of a range value.
pub open spec fn rend(v: u64) -> int {
    (v & 0xffff_ffffu64) as int
}

/// One index group: a key and the maximal run `[start, end)` of entries
/// carrying it.
pub open spec fn group_wf(items: Seq<SpecEntry>, ix: Seq<(Vec<u8>, u64)>, j: int) -> bool {
    0 <= j < ix.len() && {
        let s = rstart(ix[j].1);
        let e = rend(ix[j].1);
        0 <= s < e <= items.len() && forall|i: int|
            s <= i < e ==> entry_key(#[trigger] items[i]) == ix[j].0@
    }
}

/// The key-to-range map: consecutive groups partition the sorted entries,
/// and the key changes at every group boundary.
pub open spec fn index_wf(items: Seq<SpecEntry>, ix: Seq<(Vec<u8>, u64)>) -> bool {
    &&& forall|j: int| 0 <= j < ix.len() ==> #[trigger] group_wf(items, ix, j)
    &&& (ix.len() == 0 <==> items.len() == 0)
    &&& (ix.len() > 0 ==> rstart(ix[0].1) == 0 && rend(ix[ix.len() - 1].1) == items.len())
    &&& forall|j: int|
        0 <= j < ix.len() - 1 ==> rend(#[trigger] ix[j].1) == rstart(ix[j + 1].1)
    &&& forall|j: int|
        0 <= j < ix.len() - 1 ==> entry_key(items[rend(#[trigger] ix[j].1) - 1]) != entry_key(
            items[rend(ix[j].1)],
        )
}

/// The immutable search index: the sorted entries and the key-to-range map
/// over them.
pub struct RustDocSeeker {
    items: Vec<DocItem>,
    index: Vec<(Vec<u8>, u64)>,
}

impl View for RustDocSeeker {
    type V = Seq<SpecEntry>;

    closed spec fn view(&self) -> Seq<SpecEntry> {
        self.items@.map_values(|d: DocItem| d@)
    }
}

impl RustDocSeeker {
    /// The key-to-range map, in ascending key order.
    pub closed spec fn spec_index(&self) -> Seq<(Vec<u8>, u64)> {
        self.index@
    }

    /// Entries strictly sorted, count within the packed encoding's range,
    /// and the index grouping them exactly.
    pub closed spec fn wf(self) -> bool {
        &&& strictly_sorted(self@)
        &&& self@.len() <= u32::MAX
        &&& index_wf(self@, self.index@)
    }

    /// The well-formedness of the index is visible through its view.
    pub proof fn lemma_wf(self)
        requires
            self.wf(),
        ensures
            strictly_sorted(self@),
            index_wf(self@, self.spec_index()),
            self@.len() <= u32::MAX,
    {
    }

    /// How many entries the index holds.
    pub fn len(&self) -> (r: usize)
        ensures
            r == self@.len(),
    {
        self.items.len()
    }

    /// The entry at a position, in sorted order.
    pub fn get(&self, i: usize) -> (r: &DocItem)
        requires
            i < self@.len(),
        ensures
            r@ == self@[i as int],
    {
        &self.items[i]
    }
}

/// In a sorted entry run, keys never decrease.
proof fn lemma_sorted_keys_le(s: Seq<SpecEntry>, i1: int, i2: int)
    requires
        strictly_sorted(s),
        0 <= i1 <= i2 < s.len(),
    ensures
        lex_lt(entry_key(s[i1]), entry_key(s[i2])) || entry_key(s[i1]) == entry_key(s[i2]),
{
    if i1 < i2 {
        assert(entry_lt(s[i1], s[i2]));
    }
}

/// For every key present in the index, the decoded range `[start, end)`
/// holds exactly the entries whose search key equals that key: every entry
/// inside carries the key, and no entry outside does.
pub proof fn lemma_range_contiguity(sk: RustDocSeeker, j: int)
    requires
        sk.wf(),
        0 <= j < sk.spec_index().len(),
    ensures
        forall|i: int|
            rstart(sk.spec_index()[j].1) <= i < rend(sk.spec_index()[j].1) ==> entry_key(
                #[trigger] sk@[i],
            ) == sk.spec_index()[j].0@,
        forall|i: int|
            0 <= i < sk@.len() && !(rstart(sk.spec_index()[j].1) <= i < rend(
                sk.spec_index()[j].1,
            )) ==> entry_key(#[trigger] sk@[i]) != sk.spec_index()[j].0@,
{
    let items = sk@;
    let ix = sk.spec_index();
    let s = rstart(ix[j].1);
    let e = rend(ix[j].1);
    assert(group_wf(items, ix, j));
    assert forall|i: int| 0 <= i < items.len() && !(s <= i < e) implies entry_key(
        #[trigger] items[i],
    ) != ix[j].0@ by {
        let k = ix[j].0@;
        if i < s {
            assert(j > 0) by {
                if j == 0 {
                    assert(rstart(ix[0].1) == 0);
                }
            }
            assert(rend(ix[j - 1].1) == s);
            assert(group_wf(items, ix, j - 1));
            assert(entry_key(items[s - 1]) != entry_key(items[s]));
            assert(entry_key(items[s]) == k);
            lemma_sorted_keys_le(items, i, s - 1);
            lemma_sorted_keys_le(items, s - 1, s);
            lemma_lex_trichotomy(entry_key(items[s - 1]), entry_key(items[s]));
            if entry_key(items[i]) == k {
                if lex_lt(entry_key(items[i]), entry_key(items[s - 1])) {
                    lemma_lex_transitive(k, entry_key(items[s - 1]), entry_key(items[s]));
                    lemma_lex_trichotomy(k, entry_key(items[s]));
                }
            }
        } else {
            assert(i >= e);
            assert(j < ix.len() - 1) by {
                if j == ix.len() - 1 {
                    assert(rend(ix[ix.len() - 1].1) == items.len());
                }
            }
            assert(rend(ix[j].1) == rstart(ix[j + 1].1));
            assert(entry_key(items[e - 1]) != entry_key(items[e]));
            assert(entry_key(items[e - 1]) == k);
            lemma_sorted_keys_le(items, e - 1, e);
            lemma_sorted_keys_le(items, e, i);
            lemma_lex_trichotomy(entry_key(items[e - 1]), entry_key(items[e]));
            if entry_key(items[i]) == k {
                if lex_lt(entry_key(items[e]), entry_key(items[i])) {
                    lemma_lex_transitive(k, entry_key(items[e]), entry_key(items[i]));
                    lemma_lex_trichotomy(k, entry_key(items[i]));
                } else {
                    lemma_lex_trichotomy(k, entry_key(items[e]));
                }
            }
        }
    }
}

impl RustDoc {
    /// Builds the search index over the sorted entries.
    ///
    /// Fails exactly when the entry count exceeds the packed range
    /// encoding's representable range; it never silently wraps.
    pub fn build(self) -> (r: Result<RustDocSeeker, CapacityError>)
        requires
            self.wf(),
        ensures
            match r {
                Ok(sk) => sk@ == self@ && sk.wf() && self@.len() <= u32::MAX,
                Err(_) => self@.len() > u32::MAX,
            },
    {
        proof {
            self.lemma_wf();
        }
        if self.items.len() as u64 > u32::MAX as u64 {
            return Err(CapacityError);
        }
        let items = self.items;
        let ghost vitems = items@.map_values(|d: DocItem| d@);
        let mut index: Vec<(Vec<u8>, u64)> = Vec::new();
        let mut i: usize = 0;
        while i < items.len()
            invariant
                strictly_sorted(vitems),
                vitems == items@.map_values(|d: DocItem| d@),
                vitems.len() == items@.len(),
                items@.len() <= u32::MAX,
                i <= items.len(),
                index@.len() == 0 <==> i == 0,
                index@.len() > 0 ==> rstart(index@[0].1) == 0 && rend(
                    index@[index@.len() - 1].1,
                ) == i,
                forall|j: int| 0 <= j < index@.len() ==> #[trigger] group_wf(vitems, index@, j),
                forall|j: int|
                    0 <= j < index@.len() - 1 ==> rend(#[trigger] index@[j].1) == rstart(
                        index@[j + 1].1,
                    ),
                forall|j: int|
                    0 <= j < index@.len() - 1 ==> entry_key(vitems[rend(#[trigger] index@[j].1)
                        - 1]) != entry_key(vitems[rend(index@[j].1)]),
                i > 0 && i < items@.len() ==> entry_key(vitems[i - 1]) != entry_key(
                    vitems[i as int],
                ),
            decreases items.len() - i,
        {
            let start = i;
            let mut j = i + 1;
            loop
                invariant
                    vitems == items@.map_values(|d: DocItem| d@),
                    vitems.len() == items@.len(),
                    start < j <= items.len(),
                    forall|t: int|
                        start <= t < j ==> entry_key(#[trigger] vitems[t]) == entry_key(
                            vitems[start as int],
                        ),
                ensures
                    start < j <= items.len(),
                    forall|t: int|
                        start <= t < j ==> entry_key(#[trigger] vitems[t]) == entry_key(
                            vitems[start as int],
                        ),
                    j == items.len() || entry_key(vitems[j as int]) != entry_key(
                        vitems[start as int],
                    ),
                decreases items.len() - j,
            {
                if j < items.len() {
                    let c = lex_compare(
                        items[j].name.name.as_str().as_bytes(),
                        items[start].name.name.as_str().as_bytes(),
                    );
                    if c == 0 {
                        j = j + 1;
                        continue ;
                    }
                    proof {
                        lemma_lex_trichotomy(
                            entry_key(vitems[j as int]),
                            entry_key(vitems[start as int]),
                        );
                    }
                }
                break ;
            }
            let key = items[start].name.name.as_str().as_bytes_vec();
            let s64: u64 = start as u64;
            let e64: u64 = j as u64;
            let v: u64 = (s64 << 32) | e64;
            proof {
                assert(s64 <= 0xffff_ffffu64 && e64 <= 0xffff_ffffu64 ==> ((s64 << 32) | e64)
                    >> 32 == s64 && ((s64 << 32) | e64) & 0xffff_ffffu64 == e64) by (bit_vector);
            }
            let ghost old_ix = index@;
            index.push((key, v));
            proof {
                let ix = index@;
                assert(ix.len() == old_ix.len() + 1);
                assert(forall|j2: int| 0 <= j2 < old_ix.len() ==> ix[j2] == old_ix[j2]);
                assert(group_wf(vitems, ix, ix.len() - 1)) by {
                    assert(entry_key(vitems[start as int]) == key@);
                }
                assert forall|j2: int| 0 <= j2 < ix.len() implies #[trigger] group_wf(
                    vitems,
                    ix,
                    j2,
                ) by {
                    if j2 < old_ix.len() {
                        assert(group_wf(vitems, old_ix, j2));
                    }
                }
            }
            i = j;
        }
        proof {
            assert(index_wf(vitems, index@));
        }
        Ok(RustDocSeeker { items, index })
    }
}

/// The entries of `s` whose search key the matcher accepts, in order.
pub open spec fn matching_entries<M: Matcher>(s: Seq<SpecEntry>, aut: M) -> Seq<SpecEntry> {
    s.filter(|e: SpecEntry| aut.spec_matches(entry_key(e)))
}

/// Filtering keeps everything when the predicate holds everywhere.
proof fn lemma_filter_all_true(s: Seq<SpecEntry>, pred: spec_fn(SpecEntry) -> bool)
    requires
        forall|i: int| 0 <= i < s.len() ==> pred(#[trigger] s[i]),
    ensures
        s.filter(pred) == s,
    decreases s.len(),
{
    reveal(Seq::filter);
    if s.len() > 0 {
        lemma_filter_all_true(s.drop_last(), pred);
    }
}

/// Filtering drops everything when the predicate holds nowhere.
proof fn lemma_filter_all_false(s: Seq<SpecEntry>, pred: spec_fn(SpecEntry) -> bool)
    requires
        forall|i: int| 0 <= i < s.len() ==> !pred(#[trigger] s[i]),
    ensures
        s.filter(pred) == Seq::<SpecEntry>::empty(),
    decreases s.len(),
{
    reveal(Seq::filter);
    if s.len() > 0 {
        lemma_filter_all_false(s.drop_last(), pred);
    }
}

impl RustDocSeeker {
    /// Evaluates the matcher against the key map and returns exactly the
    /// entries whose search key it accepts, in sorted order.
    pub fn search<M: Matcher>(&self, aut: &M) -> (res: Vec<DocItem>)
        requires
            self.wf(),
        ensures
            res@.map_values(|d: DocItem| d@) == matching_entries(self@, *aut),
    {
        proof {
            self.lemma_wf();
        }
        let ghost vitems = self@;
        let ghost pred = |e: SpecEntry| aut.spec_matches(entry_key(e));
        let mut res: Vec<DocItem> = Vec::new();
        let mut cov: usize = 0;
        let mut j: usize = 0;
        while j < self.index.len()
            invariant
                self.wf(),
                vitems == self@,
                aut == &*aut,
                pred == (|e: SpecEntry| aut.spec_matches(entry_key(e))),
                j <= self.index@.len(),
                j == 0 ==> cov == 0,
                j > 0 ==> cov == rend(self.spec_index()[j - 1].1),
                cov <= vitems.len(),
                res@.map_values(|d: DocItem| d@) == vitems.take(cov as int).filter(pred),
            decreases self.index@.len() - j,
        {
            proof {
                assert(group_wf(vitems, self.spec_index(), j as int));
            }
            let v = self.index[j].1;
            let s64: u64 = v >> 32;
            let e64: u64 = v & 0xffff_ffff;
            proof {
                assert(v >> 32 <= 0xffff_ffffu64 && (v & 0xffff_ffffu64) <= 0xffff_ffffu64)
                    by (bit_vector);
            }
            let start = s64 as usize;
            let end = e64 as usize;
            proof {
                assert(start as int == rstart(self.spec_index()[j as int].1));
                assert(end as int == rend(self.spec_index()[j as int].1));
                assert(start as int == cov as int) by {
                    if j == 0 {
                        assert(rstart(self.spec_index()[0].1) == 0);
                    }
                }
                assert(vitems.take(end as int) =~= vitems.take(start as int) + vitems.subrange(
                    start as int,
                    end as int,
                ));
                Seq::<SpecEntry>::filter_distributes_over_add(
                    vitems.take(start as int),
                    vitems.subrange(start as int, end as int),
                    pred,
                );
            }
            let matched = aut.matches(self.index[j].0.as_slice());
            let ghost grp = vitems.subrange(start as int, end as int);
            if matched {
                proof {
                    assert(forall|t: int| 0 <= t < grp.len() ==> pred(#[trigger] grp[t]));
                    lemma_filter_all_true(grp, pred);
                }
                let mut t = start;
                while t < end
                    invariant
                        self.wf(),
                        vitems == self@,
                        start <= t <= end,
                        end <= vitems.len() <= self.items@.len(),
                        grp == vitems.subrange(start as int, end as int),
                        res@.map_values(|d: DocItem| d@) == vitems.take(start as int).filter(pred)
                            + vitems.subrange(start as int, t as int),
                    decreases end - t,
                {
                    let dup = self.items[t].duplicate();
                    proof {
                        assert(vitems[t as int] == self.items@[t as int]@);
                        assert(dup@ == vitems[t as int]);
                    }
                    let ghost resv = res@;
                    res.push(dup);
                    proof {
                        assert(res@.map_values(|d: DocItem| d@) =~= resv.map_values(
                            |d: DocItem| d@,
                        ).push(vitems[t as int]));
                        assert(vitems.subrange(start as int, t + 1) =~= vitems.subrange(
                            start as int,
                            t as int,
                        ).push(vitems[t as int]));
                        assert(res@.map_values(|d: DocItem| d@) =~= vitems.take(
                            start as int,
                        ).filter(pred) + vitems.subrange(start as int, t + 1));
                    }
                    t = t + 1;
                }
                proof {
                    assert(res@.map_values(|d: DocItem| d@) == vitems.take(end as int).filter(
                        pred,
                    ));
                }
            } else {
                proof {
                    assert(forall|t: int| 0 <= t < grp.len() ==> !pred(#[trigger] grp[t]));
                    lemma_filter_all_false(grp, pred);
                    assert(vitems.take(end as int).filter(pred) =~= vitems.take(
                        start as int,
                    ).filter(pred));
                    assert(res@.map_values(|d: DocItem| d@) == vitems.take(end as int).filter(
                        pred,
                    ));
                }
            }
            cov = end;
            j = j + 1;
        }
        proof {
            if self.index@.len() == 0 {
                assert(vitems.len() == 0);
            }
            assert(cov == vitems.len());
            assert(vitems.take(vitems.len() as int) =~= vitems);
        }
        res
    }
}

} // verus!
