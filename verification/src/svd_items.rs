//! What an SVD document derives from what, before anything is derived.
//!
//! The parser copies what an element derives from another one by following the chain of
//! derivations as far as it goes, and adds offsets up on the way. The functions here tell
//! the documents in which a chain does not end, or a sum does not fit.

use vstd::prelude::*;

use crate::text;

verus! {

broadcast use crate::text::group_views;

#[derive(Debug, Clone, Copy, PartialEq, Eq, Structural)]
pub enum ItemKind {
    Peripheral,
    Cluster,
    Register,
    Field,
    Enum,
}

/// How an item is called, and what it derives from.
#[derive(Debug)]
pub struct ItemHead {
    pub name: Option<String>,
    /// The names of the elements, where the item is an array.
    pub elements: Vec<String>,
    pub derived_from: Option<String>,
    /// The number of elements and the distance between them, where the item is an array.
    pub dim: Option<(u32, u32)>,
}

/// A peripheral, cluster, register, field or set of enumerated values, with the items in it.
#[derive(Debug)]
pub struct SvdItem {
    pub kind: ItemKind,
    pub head: ItemHead,
    /// The address, the offset or the lowest bit.
    pub offset: u64,
    /// Whether it has items of its own, and so takes none from what it derives from.
    pub own: bool,
    pub items: Vec<SvdItem>,
}

pub struct HeadView {
    pub name: Option<Seq<char>>,
    pub elements: Seq<Seq<char>>,
    pub derived_from: Option<Seq<char>>,
    pub dim: Option<(u32, u32)>,
}

pub struct ItemView {
    pub kind: ItemKind,
    pub head: HeadView,
    pub offset: u64,
    pub own: bool,
    pub items: Seq<ItemView>,
}

impl View for ItemHead {
    type V = HeadView;

    open spec fn view(&self) -> HeadView {
        HeadView {
            name: text::option_view(self.name),
            elements: text::views(self.elements@),
            derived_from: text::option_view(self.derived_from),
            dim: self.dim,
        }
    }
}

pub open spec fn item_view(i: SvdItem) -> ItemView
    decreases i,
{
    ItemView {
        kind: i.kind,
        head: i.head@,
        offset: i.offset,
        own: i.own,
        items: Seq::new(
            i.items@.len(),
            |k: int|
                if 0 <= k < i.items@.len() {
                    item_view(i.items@[k])
                } else {
                    arbitrary()
                },
        ),
    }
}

impl View for SvdItem {
    type V = ItemView;

    open spec fn view(&self) -> ItemView {
        item_view(*self)
    }
}

/// The view of an item holds the views of the items in it.
pub broadcast proof fn lemma_item_items(i: SvdItem)
    ensures
        (#[trigger] i@).items == text::views(i.items@),
{
    assert(i@.items =~= text::views(i.items@));
}

// ── Paths ────────────────────────────────────────────────────────────────────

/// Whether an item is called `name`, or has an element that is.
pub open spec fn answers(head: HeadView, name: Seq<char>) -> bool {
    head.name == Some(name) || head.elements.contains(name)
}

/// The last item of that kind with that path, from the given items down.
pub open spec fn find(items: Seq<ItemView>, path: Seq<Seq<char>>, kind: ItemKind) -> Option<ItemView>
    decreases path.len(), items.len(),
{
    if items.len() == 0 || path.len() == 0 {
        None
    } else {
        let last = items.last();
        let found = if !answers(last.head, path[0]) {
            None
        } else if path.len() > 1 {
            find(last.items, path.drop_first(), kind)
        } else if last.kind == kind {
            Some(last)
        } else {
            None
        };
        match found {
            Some(_) => found,
            None => find(items.drop_last(), path, kind),
        }
    }
}

/// The path without its last name.
pub open spec fn parent(path: Seq<Seq<char>>) -> Seq<Seq<char>> {
    if path.len() == 0 {
        path
    } else {
        path.drop_last()
    }
}

/// What a derivation leads to.
pub enum Link {
    /// A path that the parser cannot read.
    Bad,
    /// Nothing.
    Missing,
    /// The item with that path.
    Found(Seq<Seq<char>>, ItemView),
}

pub open spec fn lookup(doc: Seq<ItemView>, path: Seq<Seq<char>>, kind: ItemKind) -> Link {
    match find(doc, path, kind) {
        Some(item) => Link::Found(path, item),
        None => Link::Missing,
    }
}

/// The first of the fields that has a set of enumerated values of that name.
pub open spec fn enum_in(doc: Seq<ItemView>, register: Seq<Seq<char>>, fields: Seq<ItemView>, name: Seq<char>) -> Link
    decreases fields.len(),
{
    if fields.len() == 0 {
        Link::Missing
    } else {
        let field = match fields[0].head.name {
            Some(n) => n,
            None => Seq::empty(),
        };
        let path = register.push(field).push(name);
        match find(doc, path, ItemKind::Enum) {
            Some(item) => Link::Found(path, item),
            None => enum_in(doc, register, fields.drop_first(), name),
        }
    }
}

/// What an item in the context `ctx`, the path of what it stands in, derives from.
pub open spec fn link(doc: Seq<ItemView>, kind: ItemKind, from: Seq<char>, ctx: Seq<Seq<char>>) -> Link {
    let parts = text::split(from, '.');
    match kind {
        ItemKind::Peripheral => lookup(doc, seq![from], kind),
        ItemKind::Cluster | ItemKind::Register => lookup(
            doc,
            if parts.len() == 1 {
                ctx + parts
            } else {
                parts
            },
            kind,
        ),
        ItemKind::Field => if parts.len() == 2 {
            Link::Bad
        } else {
            lookup(
                doc,
                if parts.len() == 1 {
                    ctx + parts
                } else {
                    parts
                },
                kind,
            )
        },
        ItemKind::Enum => if parts.len() == 1 {
            match find(doc, parent(ctx), ItemKind::Register) {
                Some(register) => enum_in(doc, parent(ctx), register.items, parts[0]),
                None => Link::Missing,
            }
        } else if parts.len() == 2 {
            lookup(doc, parent(ctx) + parts, kind)
        } else if parts.len() == 3 {
            lookup(doc, parent(parent(ctx)) + parts, kind)
        } else {
            lookup(doc, parts, kind)
        },
    }
}

// ── Chains of derivations ────────────────────────────────────────────────────

/// What a derivation leads to, link by link, as far as the last item that is found; `None`
/// where it does not end within `fuel` links, or a path cannot be read.
pub open spec fn chain(
    doc: Seq<ItemView>,
    kind: ItemKind,
    from: Seq<char>,
    ctx: Seq<Seq<char>>,
    fuel: nat,
) -> Option<Seq<(Seq<Seq<char>>, ItemView)>>
    decreases fuel,
{
    if fuel == 0 {
        None
    } else {
        match link(doc, kind, from, ctx) {
            Link::Bad => None,
            Link::Missing => Some(Seq::empty()),
            Link::Found(path, item) => match item.head.derived_from {
                None => Some(seq![(path, item)]),
                Some(next) => match chain(doc, kind, next, parent(path), (fuel - 1) as nat) {
                    Some(rest) => Some(seq![(path, item)] + rest),
                    None => None,
                },
            },
        }
    }
}

/// A derivation after `n` links, where it goes on that far.
pub open spec fn later(
    doc: Seq<ItemView>,
    kind: ItemKind,
    from: Seq<char>,
    ctx: Seq<Seq<char>>,
    n: nat,
) -> Option<(Seq<char>, Seq<Seq<char>>)>
    decreases n,
{
    if n == 0 {
        Some((from, ctx))
    } else {
        match link(doc, kind, from, ctx) {
            Link::Found(path, item) => match item.head.derived_from {
                Some(next) => later(doc, kind, next, parent(path), (n - 1) as nat),
                None => None,
            },
            _ => None,
        }
    }
}

/// What an item derives from, link by link. A chain has no more links than can be counted
/// with sixty-four bits.
pub open spec fn links(doc: Seq<ItemView>, item: ItemView, ctx: Seq<Seq<char>>) -> Option<
    Seq<(Seq<Seq<char>>, ItemView)>,
> {
    match item.head.derived_from {
        Some(from) => chain(doc, item.kind, from, ctx, u64::MAX as nat),
        None => Some(Seq::empty()),
    }
}

/// The name under which the items of an item are looked up.
pub open spec fn own_name(head: HeadView) -> Seq<char> {
    match head.name {
        Some(name) => name,
        None => Seq::empty(),
    }
}

/// The place of the first of the links to an item with items of its own; their number
/// where there is none.
pub open spec fn giver(links: Seq<(Seq<Seq<char>>, ItemView)>) -> nat
    decreases links.len(),
{
    if links.len() == 0 || links[0].1.own {
        0
    } else {
        1 + giver(links.drop_first())
    }
}

/// The items that an item holds, its own or those of the first that has some among what it
/// derives from, and the path in which they are looked up: that of the item itself, or of
/// the last that it derives from, where they come from there.
pub open spec fn contents(
    item: ItemView,
    links: Seq<(Seq<Seq<char>>, ItemView)>,
    ctx: Seq<Seq<char>>,
) -> (Seq<ItemView>, Seq<Seq<char>>) {
    let own = ctx.push(own_name(item.head));
    let n = giver(links) as int;
    if item.own || links.len() == 0 {
        (item.items, own)
    } else if n >= links.len() {
        (Seq::empty(), own)
    } else if n == links.len() - 1 {
        (links[n].1.items, links[n].0)
    } else {
        (links[n].1.items, own)
    }
}

// ── Offsets ──────────────────────────────────────────────────────────────────

/// The first array among the links.
pub open spec fn first_dim(links: Seq<(Seq<Seq<char>>, ItemView)>) -> Option<(u32, u32)>
    decreases links.len(),
{
    if links.len() == 0 {
        None
    } else if links[0].1.head.dim is Some {
        links[0].1.head.dim
    } else {
        first_dim(links.drop_first())
    }
}

/// The array that an item is: its own, or, where its name has a place for an index, that of
/// the first array that it derives from.
pub open spec fn dim_of(item: ItemView, links: Seq<(Seq<Seq<char>>, ItemView)>) -> Option<(u32, u32)> {
    if item.head.dim is Some || text::find(own_name(item.head), "%s"@) is None {
        item.head.dim
    } else {
        first_dim(links)
    }
}

/// How far the last element of an array is from the first; `None` where it has none.
pub open spec fn spread(dim: Option<(u32, u32)>) -> Option<nat> {
    match dim {
        Some((count, increment)) => if count == 0 {
            None
        } else {
            Some(((count - 1) * increment) as nat)
        },
        None => Some(0),
    }
}

/// The highest offset that an item of that kind can have.
pub open spec fn offset_limit(kind: ItemKind) -> nat {
    match kind {
        ItemKind::Peripheral => u64::MAX as nat,
        _ => u32::MAX as nat,
    }
}

/// What is added to the offsets of the items in an item, once its own is added to `base`;
/// no more than one above the highest offset, which fits with nothing.
pub open spec fn inner_base(item: ItemView, apart: Option<nat>, base: nat) -> nat {
    match apart {
        Some(a) => if item.kind != ItemKind::Cluster {
            0
        } else if base + item.offset + a <= u32::MAX {
            (base + item.offset + a) as nat
        } else {
            u32::MAX as nat + 1
        },
        None => 0,
    }
}

/// Whether the offset of an item fits, and, of a register, once the offsets of the clusters
/// around it are added, which are `base`.
pub open spec fn offset_fits(item: ItemView, apart: Option<nat>, base: nat) -> bool {
    match apart {
        Some(a) => (if item.kind == ItemKind::Register {
            base
        } else {
            0
        }) + item.offset + a <= offset_limit(item.kind),
        None => true,
    }
}

// ── Expansion ────────────────────────────────────────────────────────────────

/// Whether the items can be expanded in the path `ctx`: their derivations followed, their
/// offsets added up, and what they hold expanded in turn, no deeper than `fuel`.
pub open spec fn items_expand(
    doc: Seq<ItemView>,
    items: Seq<ItemView>,
    ctx: Seq<Seq<char>>,
    base: nat,
    fuel: nat,
) -> bool
    decreases fuel, items.len() + 1,
{
    items.len() == 0 || (items_expand(doc, items.drop_last(), ctx, base, fuel) && item_expands(
        doc,
        items.last(),
        ctx,
        base,
        fuel,
    ))
}

pub open spec fn item_expands(doc: Seq<ItemView>, item: ItemView, ctx: Seq<Seq<char>>, base: nat, fuel: nat) -> bool
    decreases fuel, 0nat,
{
    if fuel == 0 {
        false
    } else {
        match links(doc, item, ctx) {
            Some(links) => {
                let apart = spread(dim_of(item, links));
                let (inner, place) = contents(item, links, ctx);
                &&& offset_fits(item, apart, base)
                &&& items_expand(doc, inner, place, inner_base(item, apart, base), (fuel - 1) as nat)
            },
            None => false,
        }
    }
}

/// The number of clusters among the items and in them.
pub open spec fn clusters(items: Seq<ItemView>) -> nat
    decreases items,
{
    if items.len() == 0 {
        0
    } else {
        clusters(items.drop_last()) + clusters(items.last().items) + (if items.last().kind == ItemKind::Cluster {
            1nat
        } else {
            0
        })
    }
}

/// A number, or the highest of sixty-four bits where it does not fit.
pub open spec fn capped(n: nat) -> nat {
    if n <= u64::MAX {
        n
    } else {
        u64::MAX as nat
    }
}

/// How deep items can lie in one another: a peripheral, each cluster once, a register, a
/// field and a set of enumerated values. It is deeper only where a cluster comes to lie in
/// itself.
pub open spec fn depth_limit(doc: Seq<ItemView>) -> nat {
    capped(clusters(doc) + 4)
}

/// Whether the derivations of a document can be followed and its offsets added up.
pub open spec fn expandable(doc: Seq<ItemView>) -> bool {
    items_expand(doc, doc, Seq::empty(), 0, depth_limit(doc))
}

// ── Looking ──────────────────────────────────────────────────────────────────

fn has_name(head: &ItemHead, name: &str) -> (r: bool)
    ensures
        r == answers(head@, name@),
{
    if let Some(n) = &head.name {
        if text::same_text(n.as_str(), name) {
            return true;
        }
    }
    let ghost all = text::views(head.elements@);
    let mut i: usize = 0;
    while i < head.elements.len()
        invariant
            i <= head.elements@.len(),
            all == text::views(head.elements@),
            forall|j: int| 0 <= j < i ==> #[trigger] all[j] != name@,
        decreases head.elements.len() - i,
    {
        assert(all[i as int] == head.elements@[i as int]@);
        if text::same_text(head.elements[i].as_str(), name) {
            return true;
        }
        i += 1;
    }
    false
}

/// The view of an optional item.
pub open spec fn option_item(r: Option<&SvdItem>) -> Option<ItemView> {
    match r {
        Some(i) => Some(i@),
        None => None,
    }
}

fn find_item<'d>(items: &'d Vec<SvdItem>, path: &Vec<String>, from: usize, kind: ItemKind) -> (r: Option<&'d SvdItem>)
    requires
        from <= path@.len(),
    ensures
        option_item(r) == find(text::views(items@), text::views(path@).skip(from as int), kind),
    decreases path@.len() - from,
{
    broadcast use lemma_item_items;
    let ghost all = text::views(items@);
    let ghost p = text::views(path@).skip(from as int);
    let len: usize = path.len();
    if from == len {
        return None;
    }
    assert(p[0] == path@[from as int]@);
    assert(p.drop_first() =~= text::views(path@).skip(from + 1));
    let mut n: usize = items.len();
    assert(all.take(n as int) =~= all);
    while n > 0
        invariant
            from < len == path@.len(),
            n <= items@.len(),
            all == text::views(items@),
            p == text::views(path@).skip(from as int),
            p[0] == path@[from as int]@,
            p.drop_first() == text::views(path@).skip(from + 1),
            find(all, p, kind) == find(all.take(n as int), p, kind),
        decreases n,
    {
        let item = &items[n - 1];
        proof {
            lemma_item_items(*item);
        }
        assert(all.take(n as int).last() == item@);
        assert(all.take(n as int).drop_last() =~= all.take(n - 1));
        if has_name(&item.head, path[from].as_str()) {
            if from + 1 < len {
                if let Some(found) = find_item(&item.items, path, from + 1, kind) {
                    return Some(found);
                }
            } else if item.kind == kind {
                return Some(item);
            }
        }
        n -= 1;
    }
    None
}

/// What a derivation leads to, with the item itself.
pub enum Lead<'d> {
    Bad,
    Missing,
    Found(Vec<String>, &'d SvdItem),
}

impl<'d> View for Lead<'d> {
    type V = Link;

    open spec fn view(&self) -> Link {
        match *self {
            Lead::Bad => Link::Bad,
            Lead::Missing => Link::Missing,
            Lead::Found(path, item) => Link::Found(text::views(path@), item@),
        }
    }
}

fn look_up<'d>(doc: &'d Vec<SvdItem>, path: Vec<String>, kind: ItemKind) -> (r: Lead<'d>)
    ensures
        r@ == lookup(text::views(doc@), text::views(path@), kind),
{
    assert(text::views(path@).skip(0) =~= text::views(path@));
    match find_item(doc, &path, 0, kind) {
        Some(item) => Lead::Found(path, item),
        None => Lead::Missing,
    }
}

fn copy_path(path: &Vec<String>, to: usize) -> (r: Vec<String>)
    requires
        to <= path@.len(),
    ensures
        text::views(r@) == text::views(path@).take(to as int),
{
    let mut out: Vec<String> = Vec::new();
    let mut i: usize = 0;
    while i < to
        invariant
            i <= to <= path@.len(),
            text::views(out@) =~= text::views(path@).take(i as int),
        decreases to - i,
    {
        out.push(path[i].clone());
        i += 1;
    }
    out
}

fn parent_of(path: &Vec<String>) -> (r: Vec<String>)
    ensures
        text::views(r@) == parent(text::views(path@)),
{
    let n: usize = path.len();
    if n == 0 {
        Vec::new()
    } else {
        let out = copy_path(path, n - 1);
        assert(text::views(path@).take(n - 1) =~= text::views(path@).drop_last());
        out
    }
}

fn path_with(path: &Vec<String>, name: &str) -> (r: Vec<String>)
    ensures
        text::views(r@) == text::views(path@).push(name@),
{
    let n: usize = path.len();
    let mut out = copy_path(path, n);
    assert(text::views(path@).take(n as int) =~= text::views(path@));
    out.push(name.to_owned());
    out
}

fn path_plus(path: &Vec<String>, more: Vec<String>) -> (r: Vec<String>)
    ensures
        text::views(r@) == text::views(path@) + text::views(more@),
{
    let n: usize = path.len();
    let mut out = copy_path(path, n);
    assert(text::views(path@).take(n as int) =~= text::views(path@));
    let ghost a = out@;
    let ghost b = more@;
    let mut more = more;
    out.append(&mut more);
    assert(text::views(a + b) =~= text::views(a) + text::views(b));
    out
}

fn name_of(head: &ItemHead) -> (r: String)
    ensures
        r@ == own_name(head@),
{
    match &head.name {
        Some(name) => name.clone(),
        None => {
            let empty = String::new();
            assert(empty@ =~= Seq::<char>::empty());
            empty
        },
    }
}

fn look_up_enum<'d>(doc: &'d Vec<SvdItem>, register: &Vec<String>, fields: &Vec<SvdItem>, name: &str) -> (r: Lead<'d>)
    ensures
        r@ == enum_in(text::views(doc@), text::views(register@), text::views(fields@), name@),
{
    let ghost all = text::views(fields@);
    let mut i: usize = 0;
    assert(all.skip(0) =~= all);
    while i < fields.len()
        invariant
            i <= fields@.len(),
            all == text::views(fields@),
            enum_in(text::views(doc@), text::views(register@), all, name@) == enum_in(
                text::views(doc@),
                text::views(register@),
                all.skip(i as int),
                name@,
            ),
        decreases fields.len() - i,
    {
        assert(all.skip(i as int)[0] == fields@[i as int]@);
        let field = name_of(&fields[i].head);
        let path = path_with(&path_with(register, field.as_str()), name);
        assert(text::views(path@).skip(0) =~= text::views(path@));
        if let Some(item) = find_item(doc, &path, 0, ItemKind::Enum) {
            return Lead::Found(path, item);
        }
        assert(all.skip(i as int).drop_first() =~= all.skip(i + 1));
        i += 1;
    }
    Lead::Missing
}

fn follow<'d>(doc: &'d Vec<SvdItem>, kind: ItemKind, from: &str, ctx: &Vec<String>) -> (r: Lead<'d>)
    ensures
        r@ == link(text::views(doc@), kind, from@, text::views(ctx@)),
{
    broadcast use lemma_item_items;
    let parts = text::split_text(from, '.');
    assert(text::views(parts@).len() == parts@.len());
    match kind {
        ItemKind::Peripheral => {
            let mut path: Vec<String> = Vec::new();
            path.push(from.to_owned());
            assert(text::views(path@) =~= seq![from@]);
            look_up(doc, path, kind)
        },
        ItemKind::Cluster | ItemKind::Register => {
            if parts.len() == 1 {
                look_up(doc, path_plus(ctx, parts), kind)
            } else {
                look_up(doc, parts, kind)
            }
        },
        ItemKind::Field => {
            if parts.len() == 2 {
                Lead::Bad
            } else if parts.len() == 1 {
                look_up(doc, path_plus(ctx, parts), kind)
            } else {
                look_up(doc, parts, kind)
            }
        },
        ItemKind::Enum => {
            let register = parent_of(ctx);
            if parts.len() == 1 {
                assert(text::views(parts@)[0] == parts@[0]@);
                assert(text::views(register@).skip(0) =~= text::views(register@));
                match find_item(doc, &register, 0, ItemKind::Register) {
                    Some(item) => look_up_enum(doc, &register, &item.items, parts[0].as_str()),
                    None => Lead::Missing,
                }
            } else if parts.len() == 2 {
                look_up(doc, path_plus(&register, parts), kind)
            } else if parts.len() == 3 {
                look_up(doc, path_plus(&parent_of(&register), parts), kind)
            } else {
                look_up(doc, parts, kind)
            }
        },
    }
}

/// The views of the links of a chain.
pub open spec fn link_views(links: Seq<(Vec<String>, &SvdItem)>) -> Seq<(Seq<Seq<char>>, ItemView)> {
    Seq::new(links.len(), |i: int| (text::views(links[i].0@), links[i].1@))
}

pub open spec fn option_links(r: Option<Vec<(Vec<String>, &SvdItem)>>) -> Option<Seq<(Seq<Seq<char>>, ItemView)>> {
    match r {
        Some(links) => Some(link_views(links@)),
        None => None,
    }
}

fn same_path(a: &Vec<String>, b: &Vec<String>) -> (r: bool)
    ensures
        r == (text::views(a@) == text::views(b@)),
{
    let ghost x = text::views(a@);
    let ghost y = text::views(b@);
    assert(x.len() == a@.len() && y.len() == b@.len());
    if a.len() != b.len() {
        return false;
    }
    let mut i: usize = 0;
    while i < a.len()
        invariant
            x == text::views(a@),
            y == text::views(b@),
            a@.len() == b@.len(),
            i <= a@.len(),
            forall|j: int| 0 <= j < i ==> x[j] == y[j],
        decreases a.len() - i,
    {
        assert(x[i as int] == a@[i as int]@);
        assert(y[i as int] == b@[i as int]@);
        if !text::same_text(a[i].as_str(), b[i].as_str()) {
            return false;
        }
        i += 1;
    }
    assert(x =~= y);
    true
}

/// What a derivation leads to, link by link. A chain that comes back to where it was is
/// found out by a mark, which is set anew after twice as many links each time.
fn follow_chain<'d>(doc: &'d Vec<SvdItem>, kind: ItemKind, from: &str, ctx: &Vec<String>) -> (r: Option<
    Vec<(Vec<String>, &'d SvdItem)>,
>)
    ensures
        option_links(r) == chain(text::views(doc@), kind, from@, text::views(ctx@), u64::MAX as nat),
{
    let ghost d = text::views(doc@);
    let ghost whole = chain(d, kind, from@, text::views(ctx@), u64::MAX as nat);
    let mut out: Vec<(Vec<String>, &'d SvdItem)> = Vec::new();
    let n: usize = ctx.len();
    assert(text::views(ctx@).take(n as int) =~= text::views(ctx@));
    let mut here = from.to_owned();
    let mut place = copy_path(ctx, n);
    let mut mark = from.to_owned();
    let mut mark_place = copy_path(ctx, n);
    let mut since: u64 = 0;
    let mut span: u64 = 1;
    let mut fuel: u64 = u64::MAX;
    let ghost mut mark_fuel: nat = u64::MAX as nat;
    proof {
        if let Some(rest) = whole {
            assert(link_views(out@) + rest =~= rest);
        }
    }
    while fuel > 0
        invariant
            d == text::views(doc@),
            whole == chain(d, kind, from@, text::views(ctx@), u64::MAX as nat),
            whole == (match chain(d, kind, here@, text::views(place@), fuel as nat) {
                Some(rest) => Some(link_views(out@) + rest),
                None => None,
            }),
            chain(d, kind, mark@, text::views(mark_place@), mark_fuel) is None ==> whole is None,
            later(d, kind, mark@, text::views(mark_place@), since as nat) == Some((here@, text::views(place@))),
            since < span,
        decreases fuel,
    {
        match follow(doc, kind, here.as_str(), &place) {
            Lead::Bad => {
                return None;
            },
            Lead::Missing => {
                assert(link_views(out@) + Seq::<(Seq<Seq<char>>, ItemView)>::empty() =~= link_views(out@));
                return Some(out);
            },
            Lead::Found(path, item) => {
                let ghost before = link_views(out@);
                let ghost link = (text::views(path@), item@);
                let up = parent_of(&path);
                out.push((path, item));
                assert(link_views(out@) =~= before.push(link));
                assert(before + seq![link] =~= before.push(link));
                match &item.head.derived_from {
                    None => {
                        return Some(out);
                    },
                    Some(next) => {
                        proof {
                            if let Some(rest) = chain(d, kind, next@, text::views(up@), (fuel - 1) as nat) {
                                assert(before + (seq![link] + rest) =~= before.push(link) + rest);
                            }
                            lemma_later_goes_on(
                                d,
                                kind,
                                mark@,
                                text::views(mark_place@),
                                since as nat,
                                here@,
                                text::views(place@),
                            );
                            reveal_with_fuel(later, 2);
                        }
                        here = next.clone();
                        place = up;
                        fuel -= 1;
                        since += 1;
                        if text::same_text(here.as_str(), mark.as_str()) && same_path(&place, &mark_place) {
                            proof {
                                chains_that_return_never_end(
                                    d,
                                    kind,
                                    mark@,
                                    text::views(mark_place@),
                                    since as nat,
                                    mark_fuel,
                                );
                            }
                            return None;
                        }
                        if since >= span {
                            mark = here.clone();
                            let n: usize = place.len();
                            mark_place = copy_path(&place, n);
                            assert(text::views(place@).take(n as int) =~= text::views(place@));
                            since = 0;
                            span = if span <= 0x7fff_ffff_ffff_ffff {
                                span * 2
                            } else {
                                span
                            };
                            proof {
                                mark_fuel = fuel as nat;
                            }
                        }
                    },
                }
            },
        }
    }
    None
}

proof fn lemma_later_goes_on(
    doc: Seq<ItemView>,
    kind: ItemKind,
    from: Seq<char>,
    ctx: Seq<Seq<char>>,
    n: nat,
    last: Seq<char>,
    last_ctx: Seq<Seq<char>>,
)
    requires
        later(doc, kind, from, ctx, n) == Some((last, last_ctx)),
    ensures
        later(doc, kind, from, ctx, n + 1) == later(doc, kind, last, last_ctx, 1),
    decreases n,
{
    reveal_with_fuel(later, 2);
    if n > 0 {
        if let Link::Found(path, item) = link(doc, kind, from, ctx) {
            if let Some(next) = item.head.derived_from {
                lemma_later_goes_on(doc, kind, next, parent(path), (n - 1) as nat, last, last_ctx);
            }
        }
    }
}

/// A chain ends only where the rest of it ends.
proof fn lemma_chain_by_its_rest(
    doc: Seq<ItemView>,
    kind: ItemKind,
    from: Seq<char>,
    ctx: Seq<Seq<char>>,
    n: nat,
    fuel: nat,
)
    requires
        later(doc, kind, from, ctx, n) matches Some((last, last_ctx)) && (fuel <= n || chain(
            doc,
            kind,
            last,
            last_ctx,
            (fuel - n) as nat,
        ) is None),
    ensures
        chain(doc, kind, from, ctx, fuel) is None,
    decreases n,
{
    if n > 0 && fuel > 0 {
        if let Link::Found(path, item) = link(doc, kind, from, ctx) {
            if let Some(next) = item.head.derived_from {
                lemma_chain_by_its_rest(doc, kind, next, parent(path), (n - 1) as nat, (fuel - 1) as nat);
            }
        }
    }
}

fn links_of<'d>(doc: &'d Vec<SvdItem>, item: &SvdItem, ctx: &Vec<String>) -> (r: Option<Vec<(Vec<String>, &'d SvdItem)>>)
    ensures
        option_links(r) == links(text::views(doc@), item@, text::views(ctx@)),
{
    match &item.head.derived_from {
        Some(from) => follow_chain(doc, item.kind, from.as_str(), ctx),
        None => {
            let none: Vec<(Vec<String>, &'d SvdItem)> = Vec::new();
            assert(link_views(none@) =~= Seq::empty());
            Some(none)
        },
    }
}

fn giver_of(links: &Vec<(Vec<String>, &SvdItem)>) -> (r: usize)
    ensures
        r == giver(link_views(links@)),
        r <= links@.len(),
{
    let ghost all = link_views(links@);
    let mut i: usize = 0;
    assert(all.skip(0) =~= all);
    while i < links.len() && !links[i].1.own
        invariant
            i <= links@.len(),
            all == link_views(links@),
            giver(all) == i + giver(all.skip(i as int)),
        decreases links.len() - i,
    {
        assert(all.skip(i as int)[0] == all[i as int]);
        assert(all.skip(i as int).drop_first() =~= all.skip(i + 1));
        i += 1;
    }
    if i < links.len() {
        assert(all.skip(i as int)[0] == all[i as int]);
    }
    i
}

fn first_dim_of(links: &Vec<(Vec<String>, &SvdItem)>) -> (r: Option<(u32, u32)>)
    ensures
        r == first_dim(link_views(links@)),
{
    let ghost all = link_views(links@);
    let mut i: usize = 0;
    assert(all.skip(0) =~= all);
    while i < links.len()
        invariant
            i <= links@.len(),
            all == link_views(links@),
            first_dim(all) == first_dim(all.skip(i as int)),
        decreases links.len() - i,
    {
        assert(all.skip(i as int)[0] == all[i as int]);
        assert(all.skip(i as int).drop_first() =~= all.skip(i + 1));
        if links[i].1.head.dim.is_some() {
            return links[i].1.head.dim;
        }
        i += 1;
    }
    None
}

fn dim_of_item(item: &SvdItem, links: &Vec<(Vec<String>, &SvdItem)>) -> (r: Option<(u32, u32)>)
    ensures
        r == dim_of(item@, link_views(links@)),
{
    if item.head.dim.is_some() || text::find_text(name_of(&item.head).as_str(), "%s").is_none() {
        item.head.dim
    } else {
        first_dim_of(links)
    }
}

fn spread_of(dim: Option<(u32, u32)>) -> (r: Option<u64>)
    ensures
        match r {
            Some(n) => spread(dim) == Some(n as nat),
            None => spread(dim) is None,
        },
{
    match dim {
        Some((count, increment)) => {
            if count == 0 {
                None
            } else {
                assert((count - 1) * increment <= 0xffff_fffe * 0xffff_ffff) by (nonlinear_arith)
                    requires
                        1 <= count <= 0xffff_ffff,
                        0 <= increment <= 0xffff_ffff,
                ;
                Some((count as u64 - 1) * (increment as u64))
            }
        },
        None => Some(0),
    }
}

fn sum_fits(a: u64, b: u64, limit: u64) -> (r: bool)
    ensures
        r == (a + b <= limit),
{
    a <= limit && b <= limit - a
}

fn items_expand_of(doc: &Vec<SvdItem>, items: &Vec<SvdItem>, ctx: &Vec<String>, base: u64, fuel: u64) -> (r: bool)
    requires
        base <= u32::MAX + 1,
    ensures
        r == items_expand(text::views(doc@), text::views(items@), text::views(ctx@), base as nat, fuel as nat),
    decreases fuel, 1nat,
{
    let ghost all = text::views(items@);
    let ghost d = text::views(doc@);
    let ghost c = text::views(ctx@);
    let mut i: usize = 0;
    while i < items.len()
        invariant
            base <= u32::MAX + 1,
            i <= items@.len(),
            all == text::views(items@),
            d == text::views(doc@),
            c == text::views(ctx@),
            items_expand(d, all.take(i as int), c, base as nat, fuel as nat),
        decreases items.len() - i,
    {
        assert(all.take(i + 1).drop_last() =~= all.take(i as int));
        assert(all.take(i + 1).last() == items@[i as int]@);
        if !item_expands_of(doc, &items[i], ctx, base, fuel) {
            proof {
                lemma_part_expands(d, all, c, base as nat, fuel as nat, i + 1);
            }
            return false;
        }
        i += 1;
    }
    assert(all.take(all.len() as int) =~= all);
    true
}

/// Where the items expand, so do the first of them.
proof fn lemma_part_expands(
    doc: Seq<ItemView>,
    items: Seq<ItemView>,
    ctx: Seq<Seq<char>>,
    base: nat,
    fuel: nat,
    n: int,
)
    requires
        0 <= n <= items.len(),
    ensures
        items_expand(doc, items, ctx, base, fuel) ==> items_expand(doc, items.take(n), ctx, base, fuel),
    decreases items.len(),
{
    if n < items.len() {
        assert(items.drop_last().take(n) =~= items.take(n));
        lemma_part_expands(doc, items.drop_last(), ctx, base, fuel, n);
    } else {
        assert(items.take(n) =~= items);
    }
}

fn item_expands_of(doc: &Vec<SvdItem>, item: &SvdItem, ctx: &Vec<String>, base: u64, fuel: u64) -> (r: bool)
    requires
        base <= u32::MAX + 1,
    ensures
        r == item_expands(text::views(doc@), item@, text::views(ctx@), base as nat, fuel as nat),
    decreases fuel, 0nat,
{
    broadcast use lemma_item_items;
    if fuel == 0 {
        return false;
    }
    let links = match links_of(doc, item, ctx) {
        Some(links) => links,
        None => {
            return false;
        },
    };
    let ghost all = link_views(links@);
    let mut inner: u64 = 0;
    if let Some(apart) = spread_of(dim_of_item(item, &links)) {
        let limit: u64 = match item.kind {
            ItemKind::Peripheral => u64::MAX,
            _ => 0xffff_ffff,
        };
        if !sum_fits(item.offset, apart, limit) {
            return false;
        }
        let end: u64 = item.offset + apart;
        if item.kind == ItemKind::Register && base > 0xffff_ffff - end {
            return false;
        }
        if item.kind == ItemKind::Cluster {
            inner = if base + end <= 0xffff_ffff {
                base + end
            } else {
                0x1_0000_0000
            };
        }
    }
    let own = path_with(ctx, name_of(&item.head).as_str());
    if item.own || links.len() == 0 {
        return items_expand_of(doc, &item.items, &own, inner, fuel - 1);
    }
    let n: usize = giver_of(&links);
    if n >= links.len() {
        true
    } else if n == links.len() - 1 {
        assert(all[n as int] == (text::views(links@[n as int].0@), links@[n as int].1@));
        items_expand_of(doc, &links[n].1.items, &links[n].0, inner, fuel - 1)
    } else {
        assert(all[n as int] == (text::views(links@[n as int].0@), links@[n as int].1@));
        items_expand_of(doc, &links[n].1.items, &own, inner, fuel - 1)
    }
}

fn capped_sum(a: u64, b: u64) -> (r: u64)
    ensures
        r == capped((a + b) as nat),
{
    if b <= u64::MAX - a {
        a + b
    } else {
        u64::MAX
    }
}

fn clusters_of(items: &Vec<SvdItem>) -> (r: u64)
    ensures
        r == capped(clusters(text::views(items@))),
    decreases items,
{
    broadcast use lemma_item_items;
    let ghost all = text::views(items@);
    let mut n: u64 = 0;
    let mut i: usize = 0;
    while i < items.len()
        invariant
            i <= items@.len(),
            all == text::views(items@),
            n == capped(clusters(all.take(i as int))),
        decreases items.len() - i,
    {
        let item = &items[i];
        proof {
            lemma_item_items(*item);
        }
        assert(all.take(i + 1).drop_last() =~= all.take(i as int));
        assert(all.take(i + 1).last() == item@);
        assert(decreases_to!(items => item));
        assert(decreases_to!(item => item.items));
        n = capped_sum(n, clusters_of(&item.items));
        if item.kind == ItemKind::Cluster {
            n = capped_sum(n, 1);
        }
        i += 1;
    }
    assert(all.take(all.len() as int) =~= all);
    n
}

/// Whether the derivations of a document can be followed and its offsets added up.
pub fn is_expandable(doc: &Vec<SvdItem>) -> (r: bool)
    ensures
        r == expandable(text::views(doc@)),
{
    let nowhere: Vec<String> = Vec::new();
    let fuel: u64 = capped_sum(clusters_of(doc), 4);
    items_expand_of(doc, doc, &nowhere, 0, fuel)
}

// ── What holds of every document ─────────────────────────────────────────────

/// A derivation that comes back to where it was does not end, however far it is followed.
pub proof fn chains_that_return_never_end(
    doc: Seq<ItemView>,
    kind: ItemKind,
    from: Seq<char>,
    ctx: Seq<Seq<char>>,
    n: nat,
    fuel: nat,
)
    requires
        n > 0,
        later(doc, kind, from, ctx, n) == Some((from, ctx)),
    ensures
        chain(doc, kind, from, ctx, fuel) is None,
    decreases fuel,
{
    if fuel > n {
        chains_that_return_never_end(doc, kind, from, ctx, n, (fuel - n) as nat);
    }
    lemma_chain_by_its_rest(doc, kind, from, ctx, n, fuel);
}

/// A chain that ends within some links is the same one where more are allowed.
pub proof fn longer_limits_change_no_chain(
    doc: Seq<ItemView>,
    kind: ItemKind,
    from: Seq<char>,
    ctx: Seq<Seq<char>>,
    fuel: nat,
    more: nat,
)
    requires
        chain(doc, kind, from, ctx, fuel) is Some,
        fuel <= more,
    ensures
        chain(doc, kind, from, ctx, more) == chain(doc, kind, from, ctx, fuel),
    decreases fuel,
{
    if fuel > 0 {
        if let Link::Found(path, item) = link(doc, kind, from, ctx) {
            if let Some(next) = item.head.derived_from {
                longer_limits_change_no_chain(doc, kind, next, parent(path), (fuel - 1) as nat, (more - 1) as nat);
            }
        }
    }
}

/// What expands within some depth expands within more.
pub proof fn deeper_limits_refuse_no_more(
    doc: Seq<ItemView>,
    items: Seq<ItemView>,
    ctx: Seq<Seq<char>>,
    base: nat,
    fuel: nat,
    more: nat,
)
    requires
        items_expand(doc, items, ctx, base, fuel),
        fuel <= more,
    ensures
        items_expand(doc, items, ctx, base, more),
    decreases fuel, items.len(),
{
    if items.len() > 0 {
        deeper_limits_refuse_no_more(doc, items.drop_last(), ctx, base, fuel, more);
        let item = items.last();
        assert(item_expands(doc, item, ctx, base, fuel));
        if let Some(links) = links(doc, item, ctx) {
            let apart = spread(dim_of(item, links));
            let (inner, place) = contents(item, links, ctx);
            deeper_limits_refuse_no_more(
                doc,
                inner,
                place,
                inner_base(item, apart, base),
                (fuel - 1) as nat,
                (more - 1) as nat,
            );
        }
        assert(item_expands(doc, item, ctx, base, more));
    }
}

} // verus!
