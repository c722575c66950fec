//! Which SVD documents are refused before they are parsed or expanded, and which are not.

use vstd::prelude::*;

use crate::display_laws;
use crate::literal;
use crate::svd_items;
use crate::svd_items::{ItemKind, ItemView};
use crate::svd_text;
use crate::svd_text::{FrameView, Markup, Role};
use crate::text;

verus! {

// ── Texts ────────────────────────────────────────────────────────────────────

/// Whether an element is none of those that the parser can give up on.
pub open spec fn harmless(f: FrameView) -> bool {
    f.role != Role::WriteConstraint && f.role != Role::BitRange && f.role != Role::Highest && f.range is None
        && f.highest is None
}

proof fn lemma_tag_end(s: Seq<char>, from: int, quote: Option<char>)
    ensures
        svd_text::tag_end(s, from, quote) <= s.len(),
    decreases s.len() - from,
{
    if 0 <= from < s.len() {
        match quote {
            Some(q) => {
                lemma_tag_end(
                    s,
                    from + 1,
                    if s[from] == q {
                        None
                    } else {
                        quote
                    },
                );
            },
            None => {
                if s[from] == '"' || s[from] == '\'' {
                    lemma_tag_end(s, from + 1, Some(s[from]));
                } else if s[from] != '>' {
                    lemma_tag_end(s, from + 1, None);
                }
            },
        }
    }
}

proof fn lemma_name_end(s: Seq<char>, from: int)
    requires
        0 <= from <= s.len(),
    ensures
        from <= svd_text::name_end(s, from) <= s.len(),
    decreases s.len() - from,
{
    if from < s.len() && !svd_text::ends_name(s[from]) {
        lemma_name_end(s, from + 1);
    }
}

/// The name of a tag stands in the text.
proof fn lemma_name_stands(s: Seq<char>, from: int)
    requires
        0 <= from <= s.len(),
    ensures
        display_laws::shown(svd_text::tag_name(s, from), s),
{
    lemma_name_end(s, from);
    let end = svd_text::name_end(s, from);
    let name = s.subrange(from, end);
    let local = svd_text::tag_name(s, from);
    match text::find(name, ":"@) {
        Some(k) => {
            text::lemma_find_within(name, ":"@);
            reveal_strlit(":");
            assert(s.subrange(from + k + 1, from + k + 1 + local.len()) =~= local);
        },
        None => {
            assert(s.subrange(from, from + local.len()) =~= local);
        },
    }
}

proof fn lemma_step(s: Seq<char>, i: int)
    requires
        0 <= i < s.len(),
    ensures
        i < svd_text::step(s, i) <= s.len(),
{
}

proof fn lemma_harmless(s: Seq<char>, i: int, open: Seq<FrameView>)
    requires
        !display_laws::shown("writeConstraint"@, s),
        !display_laws::shown("bitRange"@, s),
        !display_laws::shown("msb"@, s),
        forall|k: int| 0 <= k < open.len() ==> harmless(#[trigger] open[k]),
    ensures
        svd_text::readable_from(s, i, open),
    decreases s.len() - i,
{
    if 0 <= i < s.len() && open.len() > 0 {
        lemma_step(s, i);
        let next = svd_text::step(s, i);
        let top = open.last();
        assert(open[open.len() - 1] == top);
        match svd_text::markup(s, i) {
            Markup::Remark => {
                let more = svd_text::on_top(open, FrameView { text_ended: true, ..top });
                assert forall|k: int| 0 <= k < more.len() implies harmless(#[trigger] more[k]) by {
                    if k < open.len() - 1 {
                        assert(more[k] == open[k]);
                    }
                }
                lemma_harmless(s, next, more);
            },
            Markup::Raw => {
                let t = s.subrange(i + 9, svd_text::place(s, i + 9, "]]>"@));
                let more = svd_text::on_top(open, svd_text::telling(top, t));
                assert forall|k: int| 0 <= k < more.len() implies harmless(#[trigger] more[k]) by {
                    if k < open.len() - 1 {
                        assert(more[k] == open[k]);
                    }
                }
                lemma_harmless(s, next, more);
            },
            Markup::EndTag => {
                if open.len() >= 2 {
                    assert(open[open.len() - 2] == open.drop_last().last());
                    let more = svd_text::ended(open);
                    assert forall|k: int| 0 <= k < more.len() implies harmless(#[trigger] more[k]) by {
                        if k < open.len() - 2 {
                            assert(more[k] == open[k]);
                        }
                    }
                    lemma_harmless(s, next, more);
                }
            },
            Markup::StartTag => {
                let name = svd_text::tag_name(s, i + 1);
                lemma_name_stands(s, i + 1);
                let inner = svd_text::opened(open, name);
                let n = open.len() as int;
                assert forall|k: int| 0 <= k < inner.len() implies harmless(#[trigger] inner[k]) by {
                    if k < n - 1 {
                        assert(inner[k] == open[k]);
                    }
                }
                if svd_text::is_empty_tag(s, i) {
                    let more = svd_text::ended(inner);
                    assert(inner[n] == inner.last());
                    assert(inner[n - 1] == inner.drop_last().last());
                    assert forall|k: int| 0 <= k < more.len() implies harmless(#[trigger] more[k]) by {
                        if k < n - 1 {
                            assert(more[k] == inner[k]);
                        }
                    }
                    lemma_harmless(s, next, more);
                } else {
                    lemma_harmless(s, next, inner);
                }
            },
            Markup::Character => {
                let more = svd_text::on_top(open, svd_text::telling(top, seq![svd_text::character(s, i).0]));
                assert forall|k: int| 0 <= k < more.len() implies harmless(#[trigger] more[k]) by {
                    if k < open.len() - 1 {
                        assert(more[k] == open[k]);
                    }
                }
                lemma_harmless(s, next, more);
            },
        }
    }
}

/// A text that holds none of the names `writeConstraint`, `bitRange` and `msb` is handed to
/// the parser, whatever else it holds.
pub proof fn other_texts_are_handed_on(xml: Seq<char>)
    requires
        !display_laws::shown("writeConstraint"@, xml),
        !display_laws::shown("bitRange"@, xml),
        !display_laws::shown("msb"@, xml),
    ensures
        svd_text::readable(xml),
{
    lemma_harmless(xml, 0, seq![svd_text::begun(Role::Document)]);
}

/// A field is refused exactly if its bits go from 0 to the highest number of thirty-two
/// bits, and a `writeConstraint` exactly if it holds no element; nothing else is.
pub proof fn refused_elements(f: FrameView)
    ensures
        f.role == Role::WriteConstraint ==> (svd_text::takeable(f) <==> f.holds),
        f.role == Role::Field && (f.range matches Some(t)) ==> (svd_text::takeable(f) <==> !(svd_text::bits_in_brackets(
            f.range->0,
        ).0 == Some(0xffff_ffffu64) && svd_text::bits_in_brackets(f.range->0).1 == Some(0u64))),
        f.role == Role::Field && f.range is None && f.highest is Some && f.lowest is Some ==> (svd_text::takeable(f)
            <==> !(svd_text::svd_number(f.highest->0) == Some(0xffff_ffffu64) && svd_text::svd_number(f.lowest->0)
            == Some(0u64))),
        f.role == Role::Field && f.range is None && (f.highest is None || f.lowest is None) ==> svd_text::takeable(f),
        f.role != Role::Field && f.role != Role::WriteConstraint ==> svd_text::takeable(f),
{
}

/// What an element is to the parser goes by its name and by what it stands in: registers
/// are those in the list of a peripheral and in clusters, however deep; of the elements
/// that there is one of, the first counts.
pub proof fn elements_are_told_by_their_place(f: FrameView, name: Seq<char>)
    ensures
        svd_text::role_in(f, name) == Role::Device <==> f.role == Role::Document && name == "device"@,
        svd_text::role_in(f, name) == Role::Peripherals <==> f.role == Role::Device && name == "peripherals"@
            && !f.listed,
        svd_text::role_in(f, name) == Role::Peripheral <==> f.role == Role::Peripherals && name == "peripheral"@,
        svd_text::role_in(f, name) == Role::Registers <==> f.role == Role::Peripheral && name == "registers"@
            && !f.listed,
        svd_text::role_in(f, name) == Role::Register <==> (f.role == Role::Registers || f.role == Role::Cluster) && name
            == "register"@,
        svd_text::role_in(f, name) == Role::Cluster <==> (f.role == Role::Registers || f.role == Role::Cluster) && name
            == "cluster"@,
        svd_text::role_in(f, name) == Role::Fields <==> f.role == Role::Register && name == "fields"@ && !f.listed,
        svd_text::role_in(f, name) == Role::Field <==> f.role == Role::Fields && name == "field"@,
        svd_text::role_in(f, name) == Role::WriteConstraint <==> (f.role == Role::Register || f.role == Role::Field)
            && name == "writeConstraint"@ && !f.constrained,
        svd_text::role_in(f, name) == Role::BitRange <==> f.role == Role::Field && name == "bitRange"@ && f.range is None,
        svd_text::role_in(f, name) == Role::Highest <==> f.role == Role::Field && name == "msb"@ && f.highest is None,
        svd_text::role_in(f, name) == Role::Lowest <==> f.role == Role::Field && name == "lsb"@ && f.lowest is None,
{
    reveal_strlit("register");
    reveal_strlit("cluster");
    reveal_strlit("fields");
    reveal_strlit("writeConstraint");
    reveal_strlit("bitRange");
    reveal_strlit("msb");
    reveal_strlit("lsb");
    assert("register"@.len() == 8 && "cluster"@.len() == 7 && "fields"@.len() == 6 && "writeConstraint"@.len() == 15);
    assert("bitRange"@.len() == 8 && "msb"@.len() == 3 && "lsb"@.len() == 3 && "msb"@[0] == 'm' && "lsb"@[0] == 'l');
}

/// What an element has gathered is kept until its end: its bits go to the field around it,
/// and its text grows until something else than text stands in it.
pub proof fn elements_keep_what_they_gather(f: FrameView, inner: FrameView, role: Role, t: Seq<char>)
    ensures
        inner.role == Role::BitRange ==> svd_text::taking(f, inner) == (FrameView { range: Some(inner.text), ..f }),
        inner.role == Role::Highest ==> svd_text::taking(f, inner) == (FrameView { highest: Some(inner.text), ..f }),
        inner.role == Role::Lowest ==> svd_text::taking(f, inner) == (FrameView { lowest: Some(inner.text), ..f }),
        inner.role != Role::BitRange && inner.role != Role::Highest && inner.role != Role::Lowest ==> svd_text::taking(
            f,
            inner,
        ) == f,
        svd_text::holding(f, role).holds && svd_text::holding(f, role).text == f.text,
        !f.text_ended ==> svd_text::telling(f, t).text == f.text + t,
        f.text_ended || svd_text::holding(f, role).text_ended ==> svd_text::telling(svd_text::holding(f, role), t)
            == svd_text::holding(f, role),
{
}

/// The bits in brackets are the number before the colon and the one behind it.
pub proof fn brackets_hold_two_numbers(a: Seq<char>, b: Seq<char>)
    requires
        forall|i: int| 0 <= i < a.len() ==> #[trigger] a[i] != ':',
        forall|i: int| 0 <= i < b.len() ==> #[trigger] b[i] != ':',
    ensures
        svd_text::bits_in_brackets(seq!['['] + a.push(':') + b + seq![']']) == (
            literal::unsigned(a, 10),
            literal::unsigned(b, 10),
        ),
{
    let s = seq!['['] + a.push(':') + b + seq![']'];
    let inner = s.subrange(1, s.len() - 1);
    assert(inner =~= a.push(':') + b);
    crate::text_laws::parts_stand_between_separators(a, ':', b);
    crate::text_laws::parts_stand_between_separators(b, ':', a);
    assert(text::split(inner, ':') =~= seq![a, b]);
    assert(s[0] == '[' && s.last() == ']');
}

// ── Items ────────────────────────────────────────────────────────────────────

/// Items expand exactly if each of them does, in whatever order they stand.
pub proof fn items_expand_one_by_one(
    doc: Seq<ItemView>,
    a: Seq<ItemView>,
    b: Seq<ItemView>,
    ctx: Seq<Seq<char>>,
    base: nat,
    fuel: nat,
)
    ensures
        svd_items::items_expand(doc, a + b, ctx, base, fuel) <==> svd_items::items_expand(doc, a, ctx, base, fuel)
            && svd_items::items_expand(doc, b, ctx, base, fuel),
    decreases b.len(),
{
    if b.len() == 0 {
        assert(a + b =~= a);
    } else {
        items_expand_one_by_one(doc, a, b.drop_last(), ctx, base, fuel);
        assert((a + b).drop_last() =~= a + b.drop_last());
        assert((a + b).last() == b.last());
    }
}

/// The offset of the last element of an item, where it has one: its own, and the distance
/// of the elements for each but the first.
pub open spec fn last_offset(item: ItemView) -> int {
    match item.head.dim {
        Some((count, increment)) => item.offset + (count - 1) * increment,
        None => item.offset as int,
    }
}

/// Whether an item has any element.
pub open spec fn has_elements(item: ItemView) -> bool {
    item.head.dim matches Some((count, _)) ==> count > 0
}

/// An item that derives from nothing expands exactly if its last element still has an
/// address, of a register with the offsets of the clusters around it added, and what it
/// holds expands inside it.
pub proof fn plain_items_expand_where_offsets_fit(
    doc: Seq<ItemView>,
    item: ItemView,
    ctx: Seq<Seq<char>>,
    base: nat,
    fuel: nat,
)
    requires
        item.head.derived_from is None,
        item.head.name is Some,
        fuel > 0,
    ensures
        ({
            let inner = if item.kind == ItemKind::Cluster && has_elements(item) {
                if base + last_offset(item) <= u32::MAX {
                    (base + last_offset(item)) as nat
                } else {
                    0x1_0000_0000
                }
            } else {
                0
            };
            svd_items::items_expand(doc, seq![item], ctx, base, fuel) <==> {
                &&& has_elements(item) ==> match item.kind {
                    ItemKind::Peripheral => last_offset(item) <= u64::MAX,
                    ItemKind::Register => base + last_offset(item) <= u32::MAX,
                    _ => last_offset(item) <= u32::MAX,
                }
                &&& svd_items::items_expand(doc, item.items, ctx.push(item.head.name->0), inner, (fuel - 1) as nat)
            }
        }),
{
    let one = seq![item];
    assert(one.drop_last() =~= Seq::<ItemView>::empty());
    assert(one.last() == item);
    assert(svd_items::items_expand(doc, one.drop_last(), ctx, base, fuel));
    let links = Seq::<(Seq<Seq<char>>, ItemView)>::empty();
    assert(svd_items::links(doc, item, ctx) == Some(links));
    assert(svd_items::first_dim(links) is None);
    assert(svd_items::dim_of(item, links) == item.head.dim);
    if let Some((count, increment)) = item.head.dim {
        if count > 0 {
            assert((count - 1) * increment >= 0) by (nonlinear_arith)
                requires
                    count >= 1,
                    increment >= 0,
            ;
        }
    }
    assert(svd_items::contents(item, links, ctx) == (item.items, ctx.push(item.head.name->0)));
    assert(svd_items::items_expand(doc, one, ctx, base, fuel) == svd_items::item_expands(doc, item, ctx, base, fuel));
    let apart = svd_items::spread(item.head.dim);
    let inner = svd_items::inner_base(item, apart, base);
    reveal_with_fuel(svd_items::item_expands, 2);
    assert(svd_items::item_expands(doc, item, ctx, base, fuel) == (svd_items::offset_fits(item, apart, base)
        && svd_items::items_expand(doc, item.items, ctx.push(item.head.name->0), inner, (fuel - 1) as nat)));
    assert(has_elements(item) <==> apart is Some);
    if let Some(a) = apart {
        assert(item.offset + a == last_offset(item));
    }
}

/// An item is found by a name of its own or of one of its elements, the last of several;
/// and what lies deeper under the name of what it lies in.
pub proof fn items_are_found_by_path(items: Seq<ItemView>, name: Seq<char>, kind: ItemKind)
    ensures
        match svd_items::find(items, seq![name], kind) {
            Some(found) => exists|k: int|
                0 <= k < items.len() && #[trigger] items[k] == found && found.kind == kind && (found.head.name == Some(
                    name,
                ) || found.head.elements.contains(name)) && forall|j: int|
                    k < j < items.len() ==> !((#[trigger] items[j]).kind == kind && (items[j].head.name == Some(name)
                        || items[j].head.elements.contains(name))),
            None => forall|j: int|
                0 <= j < items.len() ==> !((#[trigger] items[j]).kind == kind && (items[j].head.name == Some(name)
                    || items[j].head.elements.contains(name))),
        },
    decreases items.len(),
{
    let path = seq![name];
    assert(path[0] == name);
    if items.len() > 0 {
        let rest = items.drop_last();
        let last = items.last();
        let n = items.len() - 1;
        assert(items[n] == last);
        let hit = last.kind == kind && svd_items::answers(last.head, name);
        if !hit {
            items_are_found_by_path(rest, name, kind);
            assert(svd_items::find(items, path, kind) == svd_items::find(rest, path, kind));
            match svd_items::find(rest, path, kind) {
                Some(found) => {
                    let k = choose|k: int|
                        0 <= k < rest.len() && #[trigger] rest[k] == found && found.kind == kind && (found.head.name
                            == Some(name) || found.head.elements.contains(name)) && forall|j: int|
                            k < j < rest.len() ==> !((#[trigger] rest[j]).kind == kind && (rest[j].head.name == Some(
                                name,
                            ) || rest[j].head.elements.contains(name)));
                    assert(items[k] == found);
                    assert forall|j: int| k < j < items.len() implies !((#[trigger] items[j]).kind == kind && (
                    items[j].head.name == Some(name) || items[j].head.elements.contains(name))) by {
                        if j < n {
                            assert(rest[j] == items[j]);
                        }
                    }
                },
                None => {
                    assert forall|j: int| 0 <= j < items.len() implies !((#[trigger] items[j]).kind == kind && (
                    items[j].head.name == Some(name) || items[j].head.elements.contains(name))) by {
                        if j < n {
                            assert(rest[j] == items[j]);
                        }
                    }
                },
            }
        } else {
            assert(svd_items::find(items, path, kind) == Some(last));
        }
    }
}

/// An item whose derivation comes back to where it was does not expand, whatever the depth.
pub proof fn endless_derivations_are_refused(
    doc: Seq<ItemView>,
    item: ItemView,
    ctx: Seq<Seq<char>>,
    base: nat,
    fuel: nat,
    from: Seq<char>,
    n: nat,
)
    requires
        item.head.derived_from == Some(from),
        n > 0,
        svd_items::later(doc, item.kind, from, ctx, n) == Some((from, ctx)),
    ensures
        !svd_items::items_expand(doc, seq![item], ctx, base, fuel),
{
    svd_items::chains_that_return_never_end(doc, item.kind, from, ctx, n, u64::MAX as nat);
    assert(seq![item].last() == item);
    assert(!svd_items::item_expands(doc, item, ctx, base, fuel));
}

/// An item that derives holds its own items, or, where it has none, those of the first that
/// has some among what it derives from.
pub proof fn derived_items_hold_what_they_inherit(
    item: ItemView,
    links: Seq<(Seq<Seq<char>>, ItemView)>,
    ctx: Seq<Seq<char>>,
    k: int,
)
    ensures
        item.own ==> svd_items::contents(item, links, ctx).0 == item.items,
        !item.own && 0 <= k < links.len() && links[k].1.own && (forall|j: int|
            0 <= j < k ==> !(#[trigger] links[j]).1.own) ==> svd_items::contents(item, links, ctx).0
            == links[k].1.items,
        !item.own && links.len() > 0 && (forall|j: int| 0 <= j < links.len() ==> !(#[trigger] links[j]).1.own)
            ==> svd_items::contents(item, links, ctx).0.len() == 0,
{
    if 0 <= k < links.len() && links[k].1.own && (forall|j: int| 0 <= j < k ==> !(#[trigger] links[j]).1.own) {
        lemma_giver(links, k);
    }
    if forall|j: int| 0 <= j < links.len() ==> !(#[trigger] links[j]).1.own {
        lemma_giver(links, links.len() as int);
    }
}

proof fn lemma_giver(links: Seq<(Seq<Seq<char>>, ItemView)>, k: int)
    requires
        0 <= k <= links.len(),
        k < links.len() ==> links[k].1.own,
        forall|j: int| 0 <= j < k ==> !(#[trigger] links[j]).1.own,
    ensures
        svd_items::giver(links) == k,
    decreases links.len(),
{
    if k > 0 {
        assert(!links[0].1.own);
        let rest = links.drop_first();
        assert forall|j: int| 0 <= j < k - 1 implies !(#[trigger] rest[j]).1.own by {
            assert(rest[j] == links[j + 1]);
        }
        if k < links.len() {
            assert(rest[k - 1] == links[k]);
        }
        lemma_giver(rest, k - 1);
    }
}

} // verus!
