//! The panel's list of applets: adding this applet to it and taking it out.

use vstd::prelude::*;

use crate::text::views;

verus! {

/// `plugins` with `id` added at the end, unless it is there already.
pub open spec fn registered(plugins: Seq<Seq<char>>, id: Seq<char>) -> Seq<Seq<char>> {
    if plugins.contains(id) {
        plugins
    } else {
        plugins.push(id)
    }
}

/// `plugins` without any entry `id`, the others in their order.
pub open spec fn unregistered(plugins: Seq<Seq<char>>, id: Seq<char>) -> Seq<Seq<char>> {
    plugins.filter(|p: Seq<char>| p != id)
}

/// The applet list with `id` added at the end, unless it is there already.
pub fn with_plugin(plugins: &Vec<String>, id: &str) -> (r: Vec<String>)
    ensures
        views(r@) == registered(views(plugins@), id@),
{
    let wanted = id.to_owned();
    let n = plugins.len();
    let mut r: Vec<String> = Vec::new();
    let mut found = false;
    let mut i: usize = 0;
    while i < n
        invariant
            n == plugins@.len(),
            i <= n,
            wanted@ == id@,
            views(r@) == views(plugins@).take(i as int),
            found <==> views(plugins@).take(i as int).contains(id@),
        decreases n - i,
    {
        let p = plugins[i].clone();
        if p == wanted {
            found = true;
        }
        let ghost prev = views(r@);
        r.push(p);
        proof {
            let t = views(plugins@).take(i + 1);
            assert(t =~= views(plugins@).take(i as int).push(plugins@[i as int]@));
            assert(views(r@) =~= prev.push(plugins@[i as int]@));
            if t.contains(id@) && !views(plugins@).take(i as int).contains(id@) {
                let k = choose|k: int| 0 <= k < t.len() && t[k] == id@;
                assert(k == i);
            }
            if views(plugins@).take(i as int).contains(id@) {
                let k = choose|k: int| 0 <= k < i && views(plugins@).take(i as int)[k] == id@;
                assert(t[k] == id@);
            }
            if plugins@[i as int]@ == id@ {
                assert(t[i as int] == id@);
            }
        }
        i = i + 1;
    }
    assert(views(plugins@).take(n as int) =~= views(plugins@));
    if !found {
        let ghost prev = views(r@);
        r.push(wanted);
        assert(views(r@) =~= prev.push(id@));
    }
    r
}

/// The applet list without any entry `id`.
pub fn without_plugin(plugins: &Vec<String>, id: &str) -> (r: Vec<String>)
    ensures
        views(r@) == unregistered(views(plugins@), id@),
{
    let wanted = id.to_owned();
    let n = plugins.len();
    let mut r: Vec<String> = Vec::new();
    let mut i: usize = 0;
    while i < n
        invariant
            n == plugins@.len(),
            i <= n,
            wanted@ == id@,
            views(r@) == unregistered(views(plugins@).take(i as int), id@),
        decreases n - i,
    {
        let p = plugins[i].clone();
        proof {
            let t = views(plugins@).take(i + 1);
            assert(t =~= views(plugins@).take(i as int).push(plugins@[i as int]@));
            views(plugins@).take(i as int).lemma_filter_push(
                plugins@[i as int]@,
                |p: Seq<char>| p != id@,
            );
        }
        if !(p == wanted) {
            let ghost prev = views(r@);
            r.push(p);
            assert(views(r@) =~= prev.push(plugins@[i as int]@));
        }
        i = i + 1;
    }
    assert(views(plugins@).take(n as int) =~= views(plugins@));
    r
}

/// Adding the applet twice is adding it once, and afterwards it is listed.
pub proof fn law_register_idempotent(plugins: Seq<Seq<char>>, id: Seq<char>)
    ensures
        registered(registered(plugins, id), id) == registered(plugins, id),
        registered(plugins, id).contains(id),
{
    if !plugins.contains(id) {
        assert(plugins.push(id)[plugins.len() as int] == id);
    }
}

/// After taking the applet out it is not listed, and taking it out again
/// changes nothing.
pub proof fn law_unregister_removes(plugins: Seq<Seq<char>>, id: Seq<char>)
    ensures
        !unregistered(plugins, id).contains(id),
        unregistered(unregistered(plugins, id), id) == unregistered(plugins, id),
{
    broadcast use vstd::seq_lib::group_filter_ensures;

    let u = unregistered(plugins, id);
    if u.contains(id) {
        let k = choose|k: int| 0 <= k < u.len() && u[k] == id;
        assert((|p: Seq<char>| p != id)(u[k]));
    }
    lemma_filter_all(u, id);
}

proof fn lemma_filter_all(s: Seq<Seq<char>>, id: Seq<char>)
    requires
        !s.contains(id),
    ensures
        unregistered(s, id) == s,
    decreases s.len(),
{
    reveal(Seq::filter);
    if s.len() > 0 {
        let init = s.drop_last();
        assert(!init.contains(id)) by {
            if init.contains(id) {
                let k = choose|k: int| 0 <= k < init.len() && init[k] == id;
                assert(s[k] == id);
            }
        }
        lemma_filter_all(init, id);
        assert(s.last() != id) by {
            assert(s[s.len() - 1] == s.last());
        }
        assert(init.push(s.last()) =~= s);
    }
}

} // verus!
