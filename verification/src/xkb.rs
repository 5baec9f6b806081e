//! The XKB keyboard configuration and the rewriting that makes a layout active.
//!
//! The active layout is the first entry of the comma-separated `layout`
//! string. Making another layout active reorders the `layout` string, and the
//! `variant` string alongside it, so that the chosen layout comes first.

use vstd::prelude::*;

use crate::text::{
    bounds_within, chars_of, field_bounds, free_of, join, join_commas, lemma_split_free_of,
    lemma_split_join, lemma_split_len, lemma_trim_facts, pieces, split, trim, trimmed_bounds, views,
};

verus! {

/// The compositor's keyboard configuration.
#[derive(Debug, Clone, PartialEq, Eq)]
pub struct XkbConfig {
    pub rules: String,
    pub model: String,
    pub layout: String,
    pub variant: String,
    pub options: Option<String>,
    pub repeat_delay: u32,
    pub repeat_rate: u32,
}

/// The key repeat rate used when the configuration names none.
pub fn default_repeat_rate() -> (r: u32)
    ensures
        r == 25,
{
    25
}

/// The key repeat delay used when the configuration names none.
pub fn default_repeat_delay() -> (r: u32)
    ensures
        r == 600,
{
    600
}

impl Default for XkbConfig {
    fn default() -> (c: Self)
        ensures
            c.rules@ == Seq::<char>::empty(),
            c.model@ == Seq::<char>::empty(),
            c.layout@ == Seq::<char>::empty(),
            c.variant@ == Seq::<char>::empty(),
            c.options is None,
            c.repeat_delay == 600,
            c.repeat_rate == 25,
    {
        XkbConfig {
            rules: String::new(),
            model: String::new(),
            layout: String::new(),
            variant: String::new(),
            options: None,
            repeat_delay: default_repeat_delay(),
            repeat_rate: default_repeat_rate(),
        }
    }
}

/// Each field trimmed.
pub open spec fn trim_all(fields: Seq<Seq<char>>) -> Seq<Seq<char>> {
    fields.map_values(|f: Seq<char>| trim(f))
}

/// The entries that are not empty.
pub open spec fn non_empty(names: Seq<Seq<char>>) -> Seq<Seq<char>> {
    names.filter(|t: Seq<char>| t.len() > 0)
}

/// The layout names of a `layout` string: its comma-separated fields,
/// trimmed, with the empty ones left out.
pub open spec fn layout_names(layout: Seq<char>) -> Seq<Seq<char>> {
    non_empty(trim_all(split(layout, ',')))
}

/// The variant names of a `variant` string: its comma-separated fields,
/// trimmed; an empty variant stands for "no variant" and is kept.
pub open spec fn variant_names(variant: Seq<char>) -> Seq<Seq<char>> {
    trim_all(split(variant, ','))
}

proof fn lemma_trim_all_push(fields: Seq<Seq<char>>, f: Seq<char>)
    ensures
        trim_all(fields.push(f)) == trim_all(fields).push(trim(f)),
{
    assert(trim_all(fields.push(f)) =~= trim_all(fields).push(trim(f)));
}

/// The characters of `s` between character positions `a` and `b`, as a `String`.
fn substring(s: &str, a: usize, b: usize) -> (r: String)
    requires
        a <= b <= s@.len(),
    ensures
        r@ == s@.subrange(a as int, b as int),
{
    s.substring_char(a, b).to_owned()
}

/// The names of the available layouts: the comma-separated entries of the
/// `layout` string, trimmed, without empty entries.
pub fn available_layouts(xkb: &XkbConfig) -> (r: Vec<String>)
    ensures
        views(r@) == layout_names(xkb.layout@),
{
    let s = xkb.layout.as_str();
    let chars = chars_of(s);
    let bounds = field_bounds(&chars, ',');
    let ghost fields = pieces(chars@, bounds@);
    let mut r: Vec<String> = Vec::new();
    let n = bounds.len();
    let mut k: usize = 0;
    while k < n
        invariant
            n == bounds@.len(),
            k <= n,
            chars@ == s@,
            bounds_within(chars@, bounds@),
            fields == pieces(chars@, bounds@),
            views(r@) == non_empty(trim_all(fields.take(k as int))),
        decreases n - k,
    {
        let (lo, hi) = bounds[k];
        assert(bounds@[k as int].0 <= bounds@[k as int].1 <= chars@.len());
        let (a, b) = trimmed_bounds(&chars, lo, hi);
        proof {
            assert(fields.take(k + 1) =~= fields.take(k as int).push(fields[k as int]));
            lemma_trim_all_push(fields.take(k as int), fields[k as int]);
            trim_all(fields.take(k as int)).lemma_filter_push(
                trim(fields[k as int]),
                |t: Seq<char>| t.len() > 0,
            );
        }
        if a < b {
            let name = substring(s, a, b);
            r.push(name);
            assert(views(r@) =~= non_empty(trim_all(fields.take(k as int))).push(name@));
        }
        k = k + 1;
    }
    assert(fields.take(n as int) =~= fields);
    r
}

/// The active layout: the first available one.
pub fn active_layout(xkb: &XkbConfig) -> (r: Option<String>)
    ensures
        match r {
            Some(name) => layout_names(xkb.layout@).len() > 0 && name@ == layout_names(
                xkb.layout@,
            )[0],
            None => layout_names(xkb.layout@).len() == 0,
        },
{
    let mut layouts = available_layouts(xkb);
    if layouts.len() == 0 {
        None
    } else {
        assert(views(layouts@)[0] == layouts@[0]@);
        Some(layouts.remove(0))
    }
}

/// The variant names: the comma-separated entries of the `variant` string,
/// trimmed, empty ones kept.
pub fn parse_variants(xkb: &XkbConfig) -> (r: Vec<String>)
    ensures
        views(r@) == variant_names(xkb.variant@),
{
    let s = xkb.variant.as_str();
    let chars = chars_of(s);
    let bounds = field_bounds(&chars, ',');
    let ghost fields = pieces(chars@, bounds@);
    let mut r: Vec<String> = Vec::new();
    let n = bounds.len();
    let mut k: usize = 0;
    while k < n
        invariant
            n == bounds@.len(),
            k <= n,
            chars@ == s@,
            bounds_within(chars@, bounds@),
            fields == pieces(chars@, bounds@),
            views(r@) == trim_all(fields.take(k as int)),
        decreases n - k,
    {
        let (lo, hi) = bounds[k];
        assert(bounds@[k as int].0 <= bounds@[k as int].1 <= chars@.len());
        let (a, b) = trimmed_bounds(&chars, lo, hi);
        proof {
            assert(fields.take(k + 1) =~= fields.take(k as int).push(fields[k as int]));
            lemma_trim_all_push(fields.take(k as int), fields[k as int]);
        }
        let name = substring(s, a, b);
        r.push(name);
        assert(views(r@) =~= trim_all(fields.take(k as int)).push(name@));
        k = k + 1;
    }
    assert(fields.take(n as int) =~= fields);
    r
}

/// `s` with its entry at `i` moved to the front, the others keeping their order.
pub open spec fn to_front(s: Seq<Seq<char>>, i: int) -> Seq<Seq<char>> {
    seq![s[i]] + s.remove(i)
}

/// The first `n` variant names, an empty variant standing in for each missing one.
pub open spec fn padded(variants: Seq<Seq<char>>, n: nat) -> Seq<Seq<char>> {
    Seq::new(n, |i: int| if i < variants.len() { variants[i] } else { Seq::empty() })
}

/// `c` is `x` with the layout at position `i` of its layout names made active:
/// the layout names joined again with that one first, the variants (one per
/// layout) reordered alike, every other field unchanged.
pub open spec fn rearranged(x: XkbConfig, c: XkbConfig, i: int) -> bool {
    let names = layout_names(x.layout@);
    &&& c.layout@ == join(to_front(names, i), ',')
    &&& c.variant@ == join(to_front(padded(variant_names(x.variant@), names.len()), i), ',')
    &&& c.rules == x.rules
    &&& c.model == x.model
    &&& c.options == x.options
    &&& c.repeat_delay == x.repeat_delay
    &&& c.repeat_rate == x.repeat_rate
}

/// What `make_layout_active(x, target)` returns: nothing when `target` is not
/// among the layout names, else `x` rearranged around the first position of `target`.
pub open spec fn activation(x: XkbConfig, target: Seq<char>, r: Option<XkbConfig>) -> bool {
    match layout_names(x.layout@).index_of_first(target) {
        None => r is None,
        Some(i) => r matches Some(c) && rearranged(x, c, i),
    }
}

/// A name that holds no comma and no surrounding white space.
pub open spec fn clean(t: Seq<char>) -> bool {
    !t.contains(',') && trim(t) == t
}

/// Every entry of `s` is clean.
pub open spec fn all_clean(s: Seq<Seq<char>>) -> bool {
    forall|k: int| 0 <= k < s.len() ==> clean(#[trigger] s[k])
}

/// Every entry of `s` is non-empty.
pub open spec fn all_non_empty(s: Seq<Seq<char>>) -> bool {
    forall|k: int| 0 <= k < s.len() ==> (#[trigger] s[k]).len() > 0
}

proof fn lemma_trim_all_clean(fields: Seq<Seq<char>>)
    requires
        free_of(fields, ','),
    ensures
        all_clean(trim_all(fields)),
{
    assert forall|k: int| 0 <= k < trim_all(fields).len() implies clean(
        #[trigger] trim_all(fields)[k],
    ) by {
        lemma_trim_facts(fields[k]);
        assert(!fields[k].contains(','));
    }
}

proof fn lemma_filter_keeps_clean(s: Seq<Seq<char>>)
    requires
        all_clean(s),
    ensures
        all_clean(non_empty(s)),
        all_non_empty(non_empty(s)),
{
    broadcast use vstd::seq_lib::group_filter_ensures;

    assert forall|k: int| 0 <= k < non_empty(s).len() implies clean(#[trigger] non_empty(s)[k])
        && non_empty(s)[k].len() > 0 by {
        let t = non_empty(s)[k];
        assert(non_empty(s).contains(t));
        s.lemma_filter_contains_rev(|t: Seq<char>| t.len() > 0, t);
        let j = choose|j: int| 0 <= j < s.len() && s[j] == t;
        assert(clean(s[j]));
    }
}

proof fn lemma_non_empty_identity(s: Seq<Seq<char>>)
    requires
        all_non_empty(s),
    ensures
        non_empty(s) == s,
    decreases s.len(),
{
    reveal(Seq::filter);
    if s.len() > 0 {
        let init = s.drop_last();
        assert(all_non_empty(init)) by {
            assert forall|k: int| 0 <= k < init.len() implies (#[trigger] init[k]).len() > 0 by {
                assert(init[k] == s[k]);
            }
        }
        lemma_non_empty_identity(init);
        assert(s.last() == s[s.len() - 1]);
        assert(init.push(s.last()) =~= s);
    }
}

proof fn lemma_trim_all_identity(s: Seq<Seq<char>>)
    requires
        all_clean(s),
    ensures
        trim_all(s) == s,
{
    assert(trim_all(s) =~= s);
}

proof fn lemma_to_front_keeps(s: Seq<Seq<char>>, i: int)
    requires
        0 <= i < s.len(),
    ensures
        to_front(s, i).len() == s.len(),
        to_front(s, i)[0] == s[i],
        all_clean(s) ==> all_clean(to_front(s, i)),
        all_non_empty(s) ==> all_non_empty(to_front(s, i)),
        forall|k: int| 0 < k <= i ==> #[trigger] to_front(s, i)[k] == s[k - 1],
        forall|k: int| i < k < s.len() ==> #[trigger] to_front(s, i)[k] == s[k],
{
    let f = to_front(s, i);
    assert forall|k: int| 0 < k <= i implies #[trigger] f[k] == s[k - 1] by {}
    assert forall|k: int| i < k < s.len() implies #[trigger] f[k] == s[k] by {}
    if all_clean(s) {
        assert forall|k: int| 0 <= k < f.len() implies clean(#[trigger] f[k]) by {
            if k == 0 {
            } else if k <= i {
                assert(f[k] == s[k - 1]);
            } else {
                assert(f[k] == s[k]);
            }
        }
    }
    if all_non_empty(s) {
        assert forall|k: int| 0 <= k < f.len() implies (#[trigger] f[k]).len() > 0 by {
            if k == 0 {
            } else if k <= i {
                assert(f[k] == s[k - 1]);
            } else {
                assert(f[k] == s[k]);
            }
        }
    }
}

proof fn lemma_all_clean_free_of(s: Seq<Seq<char>>)
    requires
        all_clean(s),
    ensures
        free_of(s, ','),
{
    assert forall|k: int| 0 <= k < s.len() implies !(#[trigger] s[k]).contains(',') by {
        assert(clean(s[k]));
    }
}

/// The layout names are clean and non-empty.
pub proof fn lemma_layout_names_clean(layout: Seq<char>)
    ensures
        all_clean(layout_names(layout)),
        all_non_empty(layout_names(layout)),
{
    lemma_split_free_of(layout, ',');
    lemma_trim_all_clean(split(layout, ','));
    lemma_filter_keeps_clean(trim_all(split(layout, ',')));
}

/// The variant names are clean, and so are the padded ones.
pub proof fn lemma_variant_names_clean(variant: Seq<char>, n: nat)
    ensures
        all_clean(variant_names(variant)),
        all_clean(padded(variant_names(variant), n)),
        variant_names(variant).len() >= 1,
{
    lemma_split_free_of(variant, ',');
    lemma_split_len(variant, ',');
    lemma_trim_all_clean(split(variant, ','));
    let p = padded(variant_names(variant), n);
    assert forall|k: int| 0 <= k < p.len() implies clean(#[trigger] p[k]) by {
        if k >= variant_names(variant).len() {
            assert(p[k] =~= Seq::<char>::empty());
            assert(trim(Seq::<char>::empty()) == Seq::<char>::empty());
        }
    }
}

/// Parsing the layout names back out of clean, non-empty names joined by commas
/// gives the same names.
pub proof fn lemma_layout_names_join(names: Seq<Seq<char>>)
    requires
        names.len() >= 1,
        all_clean(names),
        all_non_empty(names),
    ensures
        layout_names(join(names, ',')) == names,
{
    lemma_all_clean_free_of(names);
    lemma_split_join(names, ',');
    lemma_trim_all_identity(names);
    lemma_non_empty_identity(names);
}

/// Parsing the variant names back out of clean names joined by commas gives
/// the same names.
pub proof fn lemma_variant_names_join(names: Seq<Seq<char>>)
    requires
        names.len() >= 1,
        all_clean(names),
    ensures
        variant_names(join(names, ',')) == names,
{
    lemma_all_clean_free_of(names);
    lemma_split_join(names, ',');
    lemma_trim_all_identity(names);
}

/// The variant at position `i` of the padded variant list.
fn padded_variant(variants: &Vec<String>, i: usize) -> (r: String)
    ensures
        r@ == (if i < variants@.len() { variants@[i as int]@ } else { Seq::<char>::empty() }),
{
    if i < variants.len() {
        variants[i].clone()
    } else {
        String::new()
    }
}

/// Reorders the layout and variant strings so that `target` comes first.
/// Returns `None` when `target` is not among the available layouts.
pub fn make_layout_active(xkb: &XkbConfig, target: &str) -> (r: Option<XkbConfig>)
    ensures
        activation(*xkb, target@, r),
        r matches Some(c) ==> {
            let i = layout_names(xkb.layout@).index_of_first(target@)->0;
            &&& layout_names(c.layout@) == to_front(layout_names(xkb.layout@), i)
            &&& layout_names(c.layout@)[0] == target@
            &&& variant_names(c.variant@) == to_front(
                padded(variant_names(xkb.variant@), layout_names(xkb.layout@).len()),
                i,
            )
        },
{
    let layouts = available_layouts(xkb);
    let variants = parse_variants(xkb);
    let ghost names = layout_names(xkb.layout@);
    let ghost pad = padded(variant_names(xkb.variant@), names.len());
    let wanted = target.to_owned();
    let n = layouts.len();
    proof {
        names.index_of_first_ensures(target@);
        assert(views(layouts@) == names);
        assert(views(variants@) == variant_names(xkb.variant@));
    }
    let mut idx: usize = 0;
    while idx < n && !(layouts[idx] == wanted)
        invariant
            n == layouts@.len(),
            views(layouts@) == names,
            wanted@ == target@,
            idx <= n,
            forall|j: int| 0 <= j < idx ==> names[j] != target@,
        decreases n - idx,
    {
        assert(names[idx as int] == layouts@[idx as int]@);
        idx = idx + 1;
    }
    if idx == n {
        assert(!names.contains(target@));
        return None;
    }
    assert(names[idx as int] == target@);
    assert(names.index_of_first(target@) == Some(idx as int));
    let mut new_layouts: Vec<String> = Vec::with_capacity(n);
    let mut new_variants: Vec<String> = Vec::with_capacity(n);
    new_layouts.push(layouts[idx].clone());
    new_variants.push(padded_variant(&variants, idx));
    let mut i: usize = 0;
    while i < n
        invariant
            n == layouts@.len() == names.len() == pad.len(),
            idx < n,
            i <= n,
            views(layouts@) == names,
            views(variants@) == variant_names(xkb.variant@),
            pad == padded(variant_names(xkb.variant@), names.len()),
            views(new_layouts@) == seq![names[idx as int]] + (if i <= idx {
                names.take(i as int)
            } else {
                names.take(idx as int) + names.subrange(idx + 1, i as int)
            }),
            views(new_variants@) == seq![pad[idx as int]] + (if i <= idx {
                pad.take(i as int)
            } else {
                pad.take(idx as int) + pad.subrange(idx + 1, i as int)
            }),
        decreases n - i,
    {
        if i != idx {
            let ghost before_l = views(new_layouts@);
            let ghost before_v = views(new_variants@);
            new_layouts.push(layouts[i].clone());
            new_variants.push(padded_variant(&variants, i));
            assert(views(new_layouts@) =~= before_l.push(names[i as int]));
            assert(views(new_variants@) =~= before_v.push(pad[i as int]));
        }
        proof {
            if i < idx {
                assert(names.take(i + 1) =~= names.take(i as int).push(names[i as int]));
                assert(pad.take(i + 1) =~= pad.take(i as int).push(pad[i as int]));
            } else if i == idx {
                assert(names.subrange(idx + 1, i + 1) =~= Seq::<Seq<char>>::empty());
                assert(pad.subrange(idx + 1, i + 1) =~= Seq::<Seq<char>>::empty());
                assert(names.take(idx as int) + names.subrange(idx + 1, i + 1) =~= names.take(
                    i as int,
                ));
                assert(pad.take(idx as int) + pad.subrange(idx + 1, i + 1) =~= pad.take(i as int));
            } else {
                assert(names.subrange(idx + 1, i + 1) =~= names.subrange(idx + 1, i as int).push(
                    names[i as int],
                ));
                assert(pad.subrange(idx + 1, i + 1) =~= pad.subrange(idx + 1, i as int).push(
                    pad[i as int],
                ));
            }
        }
        i = i + 1;
    }
    let layout = join_commas(&new_layouts);
    let variant = join_commas(&new_variants);
    let options = match &xkb.options {
        Some(o) => Some(o.clone()),
        None => None,
    };
    let c = XkbConfig {
        rules: xkb.rules.clone(),
        model: xkb.model.clone(),
        layout,
        variant,
        options,
        repeat_delay: xkb.repeat_delay,
        repeat_rate: xkb.repeat_rate,
    };
    proof {
        assert(views(new_layouts@) =~= to_front(names, idx as int));
        assert(views(new_variants@) =~= to_front(pad, idx as int));
        assert(rearranged(*xkb, c, idx as int));
        lemma_rearranged_names(*xkb, c, idx as int);
        lemma_to_front_keeps(names, idx as int);
    }
    Some(c)
}

proof fn lemma_to_front_zero(s: Seq<Seq<char>>)
    requires
        s.len() > 0,
    ensures
        to_front(s, 0) == s,
{
    assert(to_front(s, 0) =~= s);
}

/// The names and variants that a rearrangement produces, parsed back.
proof fn lemma_rearranged_names(x: XkbConfig, c: XkbConfig, i: int)
    requires
        0 <= i < layout_names(x.layout@).len(),
        rearranged(x, c, i),
    ensures
        layout_names(c.layout@) == to_front(layout_names(x.layout@), i),
        variant_names(c.variant@) == to_front(
            padded(variant_names(x.variant@), layout_names(x.layout@).len()),
            i,
        ),
{
    let names = layout_names(x.layout@);
    let pad = padded(variant_names(x.variant@), names.len());
    lemma_layout_names_clean(x.layout@);
    lemma_variant_names_clean(x.variant@, names.len());
    lemma_to_front_keeps(names, i);
    lemma_to_front_keeps(pad, i);
    lemma_layout_names_join(to_front(names, i));
    lemma_variant_names_join(to_front(pad, i));
}

/// Making a layout active twice gives what making it active once gave:
/// the second rewrite leaves the layout and variant strings, and every other
/// field, as the first one wrote them.
pub proof fn law_activation_idempotent(
    x: XkbConfig,
    target: Seq<char>,
    c: XkbConfig,
    r: Option<XkbConfig>,
)
    requires
        activation(x, target, Some(c)),
        activation(c, target, r),
    ensures
        r matches Some(d) && {
            &&& d.layout@ == c.layout@
            &&& d.variant@ == c.variant@
            &&& d.rules == c.rules
            &&& d.model == c.model
            &&& d.options == c.options
            &&& d.repeat_delay == c.repeat_delay
            &&& d.repeat_rate == c.repeat_rate
        },
{
    let names = layout_names(x.layout@);
    names.index_of_first_ensures(target);
    let i = names.index_of_first(target)->0;
    lemma_rearranged_names(x, c, i);
    let front = to_front(names, i);
    lemma_to_front_keeps(names, i);
    front.index_of_first_ensures(target);
    assert(front[0] == target);
    let j = front.index_of_first(target)->0;
    assert(j == 0);
    let d = r->0;
    lemma_to_front_zero(front);
    let pad = padded(variant_names(x.variant@), names.len());
    lemma_to_front_keeps(pad, i);
    assert(padded(to_front(pad, i), front.len()) =~= to_front(pad, i));
    lemma_to_front_zero(to_front(pad, i));
}

/// Making the already active layout active again keeps the layout names in
/// their order.
pub proof fn law_active_layout_keeps_order(x: XkbConfig, target: Seq<char>, c: XkbConfig)
    requires
        activation(x, target, Some(c)),
        layout_names(x.layout@).len() > 0,
        layout_names(x.layout@)[0] == target,
    ensures
        layout_names(c.layout@) == layout_names(x.layout@),
{
    let names = layout_names(x.layout@);
    names.index_of_first_ensures(target);
    let i = names.index_of_first(target)->0;
    assert(i == 0);
    lemma_rearranged_names(x, c, i);
    lemma_to_front_zero(names);
}

/// The configuration that makes `target` active lists `target` first.
pub proof fn lemma_activation_puts_target_first(x: XkbConfig, target: Seq<char>, c: XkbConfig)
    requires
        activation(x, target, Some(c)),
    ensures
        layout_names(c.layout@).len() > 0,
        layout_names(c.layout@)[0] == target,
{
    let names = layout_names(x.layout@);
    names.index_of_first_ensures(target);
    let i = names.index_of_first(target)->0;
    lemma_rearranged_names(x, c, i);
    lemma_to_front_keeps(names, i);
}

/// Each layout keeps its own variant when a layout is made active: the layout
/// at position `k` of the layout names moves to the front when it is the
/// target's first occurrence `i`, one place back when it stood before `i`, and
/// stays where it was when it stood after `i`; at its new place the variant
/// entry is the one that stood at position `k` of the variant names, or empty
/// when the variant names have no position `k`. Nothing else is listed.
pub proof fn law_variants_follow_their_layouts(x: XkbConfig, target: Seq<char>, c: XkbConfig)
    requires
        activation(x, target, Some(c)),
    ensures
        ({
            let names = layout_names(x.layout@);
            let variants = variant_names(x.variant@);
            let i = names.index_of_first(target)->0;
            &&& 0 <= i < names.len()
            &&& names[i] == target
            &&& layout_names(c.layout@).len() == names.len()
            &&& variant_names(c.variant@).len() == names.len()
            &&& forall|k: int|
                0 <= k < names.len() ==> {
                    let j = if k == i {
                        0
                    } else if k < i {
                        k + 1
                    } else {
                        k
                    };
                    &&& layout_names(c.layout@)[j] == #[trigger] names[k]
                    &&& variant_names(c.variant@)[j] == (if k < variants.len() {
                        variants[k]
                    } else {
                        Seq::<char>::empty()
                    })
                }
        }),
{
    let names = layout_names(x.layout@);
    let variants = variant_names(x.variant@);
    names.index_of_first_ensures(target);
    let i = names.index_of_first(target)->0;
    lemma_rearranged_names(x, c, i);
    let pad = padded(variants, names.len());
    lemma_to_front_keeps(names, i);
    lemma_to_front_keeps(pad, i);
    assert forall|k: int| 0 <= k < names.len() implies {
        let j = if k == i {
            0
        } else if k < i {
            k + 1
        } else {
            k
        };
        &&& layout_names(c.layout@)[j] == #[trigger] names[k]
        &&& variant_names(c.variant@)[j] == (if k < variants.len() {
            variants[k]
        } else {
            Seq::<char>::empty()
        })
    } by {
        if k == i {
        } else if k < i {
            assert(to_front(names, i)[k + 1] == names[k]);
            assert(to_front(pad, i)[k + 1] == pad[k]);
        } else {
            assert(to_front(names, i)[k] == names[k]);
            assert(to_front(pad, i)[k] == pad[k]);
        }
    }
}

} // verus!
