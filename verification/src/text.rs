//! Character-level string operations with exact specifications.

use vstd::prelude::*;

verus! {

/// The characters of `s`, in order.
pub fn chars_of(s: &str) -> (v: Vec<char>)
    ensures
        v@ == s@,
{
    let mut v: Vec<char> = Vec::new();
    for c in it: s.chars()
        invariant
            it.seq() == s@,
            v@ == it.seq().take(it.index()),
    {
        v.push(c);
    }
    v
}

/// Unicode `White_Space` characters: the characters for which
/// `char::is_whitespace` holds, and which `str::trim` removes.
pub open spec fn is_white_space(c: char) -> bool {
    ||| '\u{09}' <= c <= '\u{0D}'
    ||| c == ' '
    ||| c == '\u{85}'
    ||| c == '\u{A0}'
    ||| c == '\u{1680}'
    ||| '\u{2000}' <= c <= '\u{200A}'
    ||| c == '\u{2028}'
    ||| c == '\u{2029}'
    ||| c == '\u{202F}'
    ||| c == '\u{205F}'
    ||| c == '\u{3000}'
}

/// Decides `is_white_space`.
pub fn white_space(c: char) -> (b: bool)
    ensures
        b == is_white_space(c),
{
    ('\u{09}' <= c && c <= '\u{0D}') || c == ' ' || c == '\u{85}' || c == '\u{A0}'
        || c == '\u{1680}' || ('\u{2000}' <= c && c <= '\u{200A}') || c == '\u{2028}'
        || c == '\u{2029}' || c == '\u{202F}' || c == '\u{205F}' || c == '\u{3000}'
}

/// `s` without its leading white space.
pub open spec fn trim_start(s: Seq<char>) -> Seq<char>
    decreases s.len(),
{
    if s.len() > 0 && is_white_space(s[0]) {
        trim_start(s.drop_first())
    } else {
        s
    }
}

/// `s` without its trailing white space.
pub open spec fn trim_end(s: Seq<char>) -> Seq<char>
    decreases s.len(),
{
    if s.len() > 0 && is_white_space(s.last()) {
        trim_end(s.drop_last())
    } else {
        s
    }
}

/// `s` without leading and trailing white space, as `str::trim` gives it.
pub open spec fn trim(s: Seq<char>) -> Seq<char> {
    trim_end(trim_start(s))
}

/// Bounds `(a, b)` inside `lo..hi` such that `chars[a..b]` is `chars[lo..hi]` trimmed.
pub fn trimmed_bounds(chars: &Vec<char>, lo: usize, hi: usize) -> (r: (usize, usize))
    requires
        lo <= hi <= chars@.len(),
    ensures
        lo <= r.0 <= r.1 <= hi,
        chars@.subrange(r.0 as int, r.1 as int) == trim(chars@.subrange(lo as int, hi as int)),
{
    let ghost s = chars@.subrange(lo as int, hi as int);
    let mut a = lo;
    while a < hi && white_space(chars[a])
        invariant
            lo <= a <= hi <= chars@.len(),
            trim_start(s) == trim_start(chars@.subrange(a as int, hi as int)),
        decreases hi - a,
    {
        assert(chars@.subrange(a as int, hi as int).drop_first() =~= chars@.subrange(
            a + 1,
            hi as int,
        ));
        a = a + 1;
    }
    let mut b = hi;
    while b > a && white_space(chars[b - 1])
        invariant
            lo <= a <= b <= hi <= chars@.len(),
            trim(s) == trim_end(chars@.subrange(a as int, b as int)),
        decreases b - a,
    {
        assert(chars@.subrange(a as int, b as int).drop_last() =~= chars@.subrange(
            a as int,
            b - 1,
        ));
        b = b - 1;
    }
    (a, b)
}

/// The fields of `s` between occurrences of `sep`, as `str::split` gives them:
/// one more field than there are separators, empty fields included.
pub open spec fn split(s: Seq<char>, sep: char) -> Seq<Seq<char>>
    decreases s.len(),
{
    if s.len() == 0 {
        seq![Seq::empty()]
    } else {
        let fields = split(s.drop_last(), sep);
        if s.last() == sep {
            fields.push(Seq::empty())
        } else {
            fields.update(fields.len() - 1, fields.last().push(s.last()))
        }
    }
}

/// The pieces of `chars` that the index pairs in `bounds` delimit.
pub open spec fn pieces(chars: Seq<char>, bounds: Seq<(usize, usize)>) -> Seq<Seq<char>> {
    Seq::new(bounds.len(), |k: int| chars.subrange(bounds[k].0 as int, bounds[k].1 as int))
}

/// Every pair of `bounds` is an ordered pair of positions in `chars`.
pub open spec fn bounds_within(chars: Seq<char>, bounds: Seq<(usize, usize)>) -> bool {
    forall|k: int| 0 <= k < bounds.len() ==> #[trigger] bounds[k].0 <= bounds[k].1 <= chars.len()
}

/// `split` has at least one field.
pub proof fn lemma_split_len(s: Seq<char>, sep: char)
    ensures
        split(s, sep).len() >= 1,
    decreases s.len(),
{
    if s.len() > 0 {
        lemma_split_len(s.drop_last(), sep);
    }
}

/// The bounds of the fields of `chars` between occurrences of `sep`.
pub fn field_bounds(chars: &Vec<char>, sep: char) -> (r: Vec<(usize, usize)>)
    ensures
        bounds_within(chars@, r@),
        pieces(chars@, r@) == split(chars@, sep),
{
    let n = chars.len();
    let mut r: Vec<(usize, usize)> = Vec::new();
    let mut start: usize = 0;
    let mut i: usize = 0;
    assert(chars@.take(0) =~= Seq::<char>::empty());
    assert(pieces(chars@, r@).push(chars@.subrange(0, 0)) =~= seq![Seq::<char>::empty()]);
    while i < n
        invariant
            n == chars@.len(),
            start <= i <= n,
            bounds_within(chars@, r@),
            split(chars@.take(i as int), sep) == pieces(chars@, r@).push(
                chars@.subrange(start as int, i as int),
            ),
        decreases n - i,
    {
        let ghost before = pieces(chars@, r@);
        let ghost prev_start = start;
        proof {
            lemma_split_len(chars@.take(i as int), sep);
            assert(chars@.take(i + 1).drop_last() =~= chars@.take(i as int));
            assert(chars@.take(i + 1).last() == chars@[i as int]);
            assert(chars@.take(i + 1).len() > 0);
        }
        let ghost next = chars@.take(i + 1);
        let ghost prefix_fields = split(chars@.take(i as int), sep);
        if chars[i] == sep {
            assert(split(next, sep) == prefix_fields.push(Seq::empty()));
            r.push((start, i));
            start = i + 1;
            assert(pieces(chars@, r@) =~= before.push(chars@.subrange(prev_start as int, i as int)));
            assert(chars@.subrange(start as int, i + 1) =~= Seq::<char>::empty());
            assert(split(next, sep) =~= pieces(chars@, r@).push(
                chars@.subrange(start as int, i + 1),
            ));
        } else {
            assert(split(next, sep) == prefix_fields.update(
                prefix_fields.len() - 1,
                prefix_fields.last().push(chars@[i as int]),
            ));
            assert(chars@.subrange(start as int, i + 1) =~= chars@.subrange(
                start as int,
                i as int,
            ).push(chars@[i as int]));
            assert(pieces(chars@, r@) =~= before);
            assert(split(next, sep) =~= pieces(chars@, r@).push(
                chars@.subrange(start as int, i + 1),
            ));
        }
        i = i + 1;
    }
    let ghost prev = r@;
    r.push((start, n));
    assert(bounds_within(chars@, r@)) by {
        assert forall|k: int| 0 <= k < r@.len() implies #[trigger] r@[k].0 <= r@[k].1
            <= chars@.len() by {
            if k < prev.len() {
                assert(r@[k] == prev[k]);
                assert(prev[k].0 <= prev[k].1 <= chars@.len());
            }
        }
    }
    assert(chars@.take(n as int) =~= chars@);
    assert(pieces(chars@, r@) =~= split(chars@, sep));
    r
}

/// The `parts` with `sep` between each two of them, as `[&str]::join` gives it.
pub open spec fn join(parts: Seq<Seq<char>>, sep: char) -> Seq<char>
    decreases parts.len(),
{
    if parts.len() == 0 {
        Seq::empty()
    } else if parts.len() == 1 {
        parts[0]
    } else {
        join(parts.drop_last(), sep).push(sep) + parts.last()
    }
}

/// No part holds the separator.
pub open spec fn free_of(parts: Seq<Seq<char>>, sep: char) -> bool {
    forall|k: int| 0 <= k < parts.len() ==> !(#[trigger] parts[k]).contains(sep)
}

/// Appending text without a separator extends the last field.
pub proof fn lemma_split_append_plain(a: Seq<char>, b: Seq<char>, sep: char)
    requires
        !b.contains(sep),
    ensures
        split(a + b, sep) == split(a, sep).update(
            split(a, sep).len() - 1,
            split(a, sep).last() + b,
        ),
    decreases b.len(),
{
    lemma_split_len(a, sep);
    if b.len() == 0 {
        assert(a + b =~= a);
        assert(split(a, sep).last() + b =~= split(a, sep).last());
        assert(split(a, sep).update(split(a, sep).len() - 1, split(a, sep).last())
            =~= split(a, sep));
    } else {
        let b0 = b.drop_last();
        let c = b.last();
        assert(!b0.contains(sep)) by {
            if b0.contains(sep) {
                let k = choose|k: int| 0 <= k < b0.len() && b0[k] == sep;
                assert(b[k] == sep);
            }
        }
        assert(c != sep) by {
            assert(b[b.len() - 1] == c);
        }
        lemma_split_append_plain(a, b0, sep);
        assert((a + b).drop_last() =~= a + b0);
        assert((a + b).last() == c);
        assert(split(a, sep).last() + b =~= (split(a, sep).last() + b0).push(c));
        lemma_split_len(a + b0, sep);
        assert(split(a + b, sep) =~= split(a, sep).update(
            split(a, sep).len() - 1,
            split(a, sep).last() + b,
        ));
    }
}

/// Splitting the joined parts gives the parts back.
pub proof fn lemma_split_join(parts: Seq<Seq<char>>, sep: char)
    requires
        parts.len() >= 1,
        free_of(parts, sep),
    ensures
        split(join(parts, sep), sep) == parts,
    decreases parts.len(),
{
    if parts.len() == 1 {
        lemma_split_append_plain(Seq::empty(), parts[0], sep);
        assert(Seq::<char>::empty() + parts[0] =~= parts[0]);
        assert(Seq::<char>::empty() + parts[0] =~= parts[0]);
        assert(split(Seq::<char>::empty(), sep) =~= seq![Seq::<char>::empty()]);
        assert(split(parts[0], sep) =~= parts);
    } else {
        let init = parts.drop_last();
        let last = parts.last();
        assert(free_of(init, sep)) by {
            assert forall|k: int| 0 <= k < init.len() implies !(#[trigger] init[k]).contains(sep) by {
                assert(init[k] == parts[k]);
            }
        }
        assert(!last.contains(sep)) by {
            assert(last == parts[parts.len() - 1]);
        }
        lemma_split_join(init, sep);
        let j = join(init, sep);
        let js = j.push(sep);
        assert(js.drop_last() =~= j);
        assert(js.last() == sep);
        assert(split(js, sep) == init.push(Seq::empty()));
        lemma_split_append_plain(js, last, sep);
        assert(Seq::<char>::empty() + last =~= last);
        assert(split(js + last, sep) =~= parts);
    }
}

/// No field of a split holds the separator.
pub proof fn lemma_split_free_of(s: Seq<char>, sep: char)
    ensures
        free_of(split(s, sep), sep),
    decreases s.len(),
{
    if s.len() > 0 {
        let init = s.drop_last();
        lemma_split_free_of(init, sep);
        lemma_split_len(init, sep);
        let f = split(init, sep);
        if s.last() != sep {
            let grown = f.last().push(s.last());
            assert(!grown.contains(sep)) by {
                if grown.contains(sep) {
                    let k = choose|k: int| 0 <= k < grown.len() && grown[k] == sep;
                    assert(k < f.last().len());
                    assert(f[f.len() - 1][k] == sep);
                }
            }
        } else {
            assert(!Seq::<char>::empty().contains(sep));
        }
        let g = split(s, sep);
        assert forall|k: int| 0 <= k < g.len() implies !(#[trigger] g[k]).contains(sep) by {
            if k < f.len() - 1 {
                assert(g[k] == f[k]);
            }
        }
    }
}

/// The views of the strings in `v`.
pub open spec fn views(v: Seq<String>) -> Seq<Seq<char>> {
    Seq::new(v.len(), |i: int| v[i]@)
}

/// The strings of `parts` joined by commas.
pub fn join_commas(parts: &Vec<String>) -> (r: String)
    ensures
        r@ == join(views(parts@), ','),
{
    let comma = ",";
    proof {
        reveal_strlit(",");
    }
    let mut r = String::new();
    let n = parts.len();
    let mut i: usize = 0;
    while i < n
        invariant
            n == parts@.len(),
            i <= n,
            comma@ == seq![','],
            r@ == join(views(parts@).take(i as int), ','),
        decreases n - i,
    {
        let ghost before = r@;
        if i > 0 {
            r.append(comma);
        }
        r.append(parts[i].as_str());
        proof {
            let t = views(parts@).take(i + 1);
            assert(t.drop_last() =~= views(parts@).take(i as int));
            assert(t.last() == parts@[i as int]@);
            if i == 0 {
                assert(r@ =~= parts@[0]@);
                assert(join(t, ',') == t[0]);
            } else {
                assert(before.push(',') =~= before + seq![',']);
            }
        }
        i = i + 1;
    }
    assert(views(parts@).take(n as int) =~= views(parts@));
    r
}

/// `trim_start` drops a prefix, and what is left does not start with white space.
pub proof fn lemma_trim_start_shape(s: Seq<char>)
    ensures
        trim_start(s).len() <= s.len(),
        trim_start(s) == s.subrange(s.len() - trim_start(s).len(), s.len() as int),
        trim_start(s).len() > 0 ==> !is_white_space(trim_start(s)[0]),
    decreases s.len(),
{
    if s.len() > 0 && is_white_space(s[0]) {
        lemma_trim_start_shape(s.drop_first());
        assert(s.drop_first().subrange(
            s.drop_first().len() - trim_start(s).len(),
            s.drop_first().len() as int,
        ) =~= s.subrange(s.len() - trim_start(s).len(), s.len() as int));
    } else {
        assert(s.subrange(0, s.len() as int) =~= s);
    }
}

/// `trim_end` drops a suffix, and what is left does not end with white space.
pub proof fn lemma_trim_end_shape(s: Seq<char>)
    ensures
        trim_end(s).len() <= s.len(),
        trim_end(s) == s.subrange(0, trim_end(s).len() as int),
        trim_end(s).len() > 0 ==> !is_white_space(trim_end(s).last()),
    decreases s.len(),
{
    if s.len() > 0 && is_white_space(s.last()) {
        lemma_trim_end_shape(s.drop_last());
        assert(s.drop_last().subrange(0, trim_end(s).len() as int) =~= s.subrange(
            0,
            trim_end(s).len() as int,
        ));
    } else {
        assert(s.subrange(0, s.len() as int) =~= s);
    }
}

/// A trimmed string is its own trim, and trimming adds no character.
pub proof fn lemma_trim_facts(s: Seq<char>)
    ensures
        trim(trim(s)) == trim(s),
        forall|c: char| !s.contains(c) ==> !(#[trigger] trim(s).contains(c)),
{
    let u = trim_start(s);
    let t = trim_end(u);
    lemma_trim_start_shape(s);
    lemma_trim_end_shape(u);
    if t.len() > 0 {
        assert(t[0] == u[0]);
        assert(t.last() == t[t.len() - 1]);
    }
    assert(trim_start(t) == t);
    assert(trim_end(t) == t);
    assert forall|c: char| !s.contains(c) implies !(#[trigger] trim(s).contains(c)) by {
        if t.contains(c) {
            let k = choose|k: int| 0 <= k < t.len() && t[k] == c;
            assert(u[k] == c);
            assert(s[s.len() - u.len() + k] == c);
        }
    }
}

/// Lexicographic order of texts by character code: the order in which
/// `String`s compare, since UTF-8 byte order follows character codes.
pub open spec fn text_less(a: Seq<char>, b: Seq<char>) -> bool
    decreases a.len(),
{
    if a.len() == 0 {
        b.len() > 0
    } else if b.len() == 0 {
        false
    } else if a[0] < b[0] {
        true
    } else if a[0] == b[0] {
        text_less(a.drop_first(), b.drop_first())
    } else {
        false
    }
}

/// `text_less` is irreflexive, and any two texts are equal or ordered one way.
pub proof fn lemma_text_less_total(a: Seq<char>, b: Seq<char>)
    ensures
        !text_less(a, a),
        a == b || text_less(a, b) || text_less(b, a),
        !(text_less(a, b) && text_less(b, a)),
    decreases a.len(),
{
    if a.len() > 0 {
        lemma_text_less_total(a.drop_first(), a.drop_first());
        if b.len() > 0 {
            lemma_text_less_total(a.drop_first(), b.drop_first());
            if a[0] == b[0] && a.drop_first() == b.drop_first() {
                assert forall|k: int| 0 <= k < a.len() implies a[k] == b[k] by {
                    if k > 0 {
                        assert(a[k] == a.drop_first()[k - 1]);
                        assert(b[k] == b.drop_first()[k - 1]);
                    }
                }
                assert(a =~= b);
            }
        }
    } else if b.len() == 0 {
        assert(a =~= b);
    }
}

/// `text_less` is transitive.
pub proof fn lemma_text_less_transitive(a: Seq<char>, b: Seq<char>, c: Seq<char>)
    requires
        text_less(a, b),
        text_less(b, c),
    ensures
        text_less(a, c),
    decreases a.len(),
{
    if a.len() > 0 && b.len() > 0 && c.len() > 0 && a[0] == b[0] && b[0] == c[0] {
        lemma_text_less_transitive(a.drop_first(), b.drop_first(), c.drop_first());
    }
}

/// Decides `text_less`.
pub fn less_text(a: &str, b: &str) -> (r: bool)
    ensures
        r == text_less(a@, b@),
{
    let x = chars_of(a);
    let y = chars_of(b);
    let mut i: usize = 0;
    assert(a@.skip(0) =~= a@);
    assert(b@.skip(0) =~= b@);
    while i < x.len() && i < y.len() && x[i] == y[i]
        invariant
            x@ == a@,
            y@ == b@,
            i <= x@.len(),
            i <= y@.len(),
            text_less(a@, b@) == text_less(a@.skip(i as int), b@.skip(i as int)),
        decreases x@.len() - i,
    {
        assert(a@.skip(i as int).drop_first() =~= a@.skip(i + 1));
        assert(b@.skip(i as int).drop_first() =~= b@.skip(i + 1));
        i = i + 1;
    }
    let ghost sa = a@.skip(i as int);
    let ghost sb = b@.skip(i as int);
    if i == x.len() {
        assert(sa.len() == 0);
        i < y.len()
    } else if i == y.len() {
        assert(sb.len() == 0);
        false
    } else {
        assert(sa[0] == x@[i as int] && sb[0] == y@[i as int]);
        x[i] < y[i]
    }
}

/// What `str::to_uppercase` returns for a text: its characters mapped to
/// their Unicode uppercase forms.
pub uninterp spec fn uppercase(s: Seq<char>) -> Seq<char>;

/// Calls `str::to_uppercase`. Its result depends on the text alone and is
/// named `uppercase`; nothing more is stated of it.
#[verifier::external_body]
pub(crate) fn to_uppercase(s: &str) -> (r: String)
    ensures
        r@ == uppercase(s@),
{
    s.to_uppercase()
}

} // verus!
