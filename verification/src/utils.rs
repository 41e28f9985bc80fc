//! Splitting a path string into its segments.
//!
//! A path such as `/p/blog` is read as the segment sequence `[p, blog]`:
//! the string is split on `/`, empty segments are discarded (so leading,
//! trailing and doubled slashes are tolerated), and collection stops right
//! after a segment that starts with `*`, since nothing after a trailing
//! wildcard takes part in matching.

use vstd::prelude::*;

verus! {

/// The segment names a single-segment parameter, as in `:name`.
pub open spec fn seg_is_param(s: Seq<char>) -> bool {
    s.len() > 0 && s[0] == ':'
}

/// The segment is a trailing wildcard, as in `*name`.
pub open spec fn seg_is_star(s: Seq<char>) -> bool {
    s.len() > 0 && s[0] == '*'
}

/// The segment is matched by position rather than by its text.
pub open spec fn seg_is_wild(s: Seq<char>) -> bool {
    seg_is_param(s) || seg_is_star(s)
}

/// Splits `s` on `/`, keeping empty segments.  A string with no `/` is one
/// segment; every `/` opens a new (possibly empty) segment after it.
pub open spec fn split_slash(s: Seq<char>) -> Seq<Seq<char>>
    decreases s.len(),
{
    if s.len() == 0 {
        seq![Seq::<char>::empty()]
    } else if s.last() == '/' {
        split_slash(s.drop_last()).push(Seq::<char>::empty())
    } else {
        let prev = split_slash(s.drop_last());
        prev.update(prev.len() - 1, prev.last().push(s.last()))
    }
}

/// Discards the empty segments that doubled or edge slashes leave behind.
pub open spec fn keep_nonempty(parts: Seq<Seq<char>>) -> Seq<Seq<char>> {
    parts.filter(|p: Seq<char>| p.len() > 0)
}

/// Keeps segments up to and including the first `*` segment.
pub open spec fn cut_at_star(parts: Seq<Seq<char>>) -> Seq<Seq<char>>
    decreases parts.len(),
{
    if parts.len() == 0 {
        Seq::<Seq<char>>::empty()
    } else if seg_is_star(parts.first()) {
        seq![parts.first()]
    } else {
        seq![parts.first()] + cut_at_star(parts.drop_first())
    }
}

/// The segments of a path: split on `/`, empties dropped, truncated just
/// after the first `*` segment.
pub open spec fn spec_parse_pattern(s: Seq<char>) -> Seq<Seq<char>> {
    cut_at_star(keep_nonempty(split_slash(s)))
}

/// Truncation does nothing to a sequence without a `*` segment.
pub proof fn lemma_cut_at_star_id(parts: Seq<Seq<char>>)
    requires
        forall|i: int| 0 <= i < parts.len() ==> !seg_is_star(#[trigger] parts[i]),
    ensures
        cut_at_star(parts) == parts,
    decreases parts.len(),
{
    if parts.len() > 0 {
        assert(!seg_is_star(parts.first()));
        lemma_cut_at_star_id(parts.drop_first());
        assert(seq![parts.first()] + parts.drop_first() =~= parts);
    } else {
        assert(cut_at_star(parts) =~= parts);
    }
}

/// Truncation passes over a `*`-free prefix unchanged.
pub proof fn lemma_cut_at_star_skips_prefix(a: Seq<Seq<char>>, b: Seq<Seq<char>>)
    requires
        forall|i: int| 0 <= i < a.len() ==> !seg_is_star(#[trigger] a[i]),
    ensures
        cut_at_star(a + b) == a + cut_at_star(b),
    decreases a.len(),
{
    if a.len() == 0 {
        assert(a + b =~= b);
        assert(a + cut_at_star(b) =~= cut_at_star(b));
    } else {
        let ab = a + b;
        assert(ab.first() == a.first());
        assert(!seg_is_star(ab.first()));
        assert(ab.len() > 0);
        assert(ab.drop_first() =~= a.drop_first() + b);
        lemma_cut_at_star_skips_prefix(a.drop_first(), b);
        assert(cut_at_star(a + b) == seq![a.first()] + (a.drop_first() + cut_at_star(b)));
        assert(seq![a.first()] + (a.drop_first() + cut_at_star(b)) =~= a + cut_at_star(b));
    }
}

/// Every segment that truncation keeps comes from its input.
pub proof fn lemma_cut_at_star_elements(parts: Seq<Seq<char>>)
    ensures
        cut_at_star(parts).len() <= parts.len(),
        forall|i: int|
            0 <= i < cut_at_star(parts).len() ==> #[trigger] cut_at_star(parts)[i] == parts[i],
    decreases parts.len(),
{
    if parts.len() > 0 && !seg_is_star(parts.first()) {
        lemma_cut_at_star_elements(parts.drop_first());
        assert forall|i: int| 0 <= i < cut_at_star(parts).len() implies #[trigger] cut_at_star(
            parts,
        )[i] == parts[i] by {
            if i > 0 {
                assert(cut_at_star(parts)[i] == cut_at_star(parts.drop_first())[i - 1]);
                assert(parts.drop_first()[i - 1] == parts[i]);
            }
        }
    }
}

/// Only the last segment that truncation keeps can be a `*` segment.
pub proof fn lemma_cut_at_star_star_is_last(parts: Seq<Seq<char>>)
    ensures
        forall|i: int|
            0 <= i < cut_at_star(parts).len() - 1 ==> !seg_is_star(
                #[trigger] cut_at_star(parts)[i],
            ),
    decreases parts.len(),
{
    if parts.len() > 0 && !seg_is_star(parts.first()) {
        lemma_cut_at_star_star_is_last(parts.drop_first());
        let c = cut_at_star(parts);
        let cd = cut_at_star(parts.drop_first());
        assert forall|i: int| 0 <= i < c.len() - 1 implies !seg_is_star(#[trigger] c[i]) by {
            if i > 0 {
                assert(c[i] == cd[i - 1]);
            }
        }
    }
}

/// The segments of a path are never empty, and a `*` segment can only stand
/// last among them.
pub proof fn lemma_parse_pattern_segments(s: Seq<char>)
    ensures
        forall|i: int|
            0 <= i < spec_parse_pattern(s).len() ==> #[trigger] spec_parse_pattern(s)[i].len() > 0,
        forall|i: int|
            0 <= i < spec_parse_pattern(s).len() - 1 ==> !seg_is_star(
                #[trigger] spec_parse_pattern(s)[i],
            ),
{
    let ne = keep_nonempty(split_slash(s));
    broadcast use vstd::seq_lib::group_filter_ensures;

    lemma_cut_at_star_elements(ne);
    lemma_cut_at_star_star_is_last(ne);
    assert forall|i: int| 0 <= i < spec_parse_pattern(s).len() implies #[trigger] spec_parse_pattern(
        s,
    )[i].len() > 0 by {
        assert(spec_parse_pattern(s)[i] == ne[i]);
    }
}

/// The segments rejoined with `/` between them; no trailing separator.
pub open spec fn spec_join_slash(parts: Seq<Seq<char>>) -> Seq<char>
    decreases parts.len(),
{
    if parts.len() == 0 {
        Seq::<char>::empty()
    } else if parts.len() == 1 {
        parts.last()
    } else {
        spec_join_slash(parts.drop_last()) + seq!['/'] + parts.last()
    }
}

/// Rejoins the segments from index `from` on with `/` between them.
pub fn join_from(parts: &Vec<String>, from: usize) -> (r: String)
    requires
        from <= parts@.len(),
    ensures
        r@ == spec_join_slash(parts.deep_view().skip(from as int)),
{
    let ghost dv = parts.deep_view();
    let mut out = String::new();
    let mut k: usize = from;
    proof {
        assert(dv.len() == parts@.len());
        assert(dv.subrange(from as int, from as int) =~= Seq::<Seq<char>>::empty());
    }
    while k < parts.len()
        invariant
            from <= k <= parts@.len(),
            dv == parts.deep_view(),
            dv.len() == parts@.len(),
            out@ == spec_join_slash(dv.subrange(from as int, k as int)),
        decreases parts@.len() - k,
    {
        let ghost sofar = dv.subrange(from as int, k as int);
        proof {
            assert(dv.subrange(from as int, k + 1).drop_last() =~= sofar);
            assert(dv.subrange(from as int, k + 1).last() == dv[k as int]);
        }
        if k > from {
            out.append("/");
            proof {
                reveal_strlit("/");
                assert("/"@ =~= seq!['/']);
            }
        }
        out.append(parts[k].as_str());
        proof {
            assert(out@ =~= spec_join_slash(dv.subrange(from as int, k + 1)));
        }
        k += 1;
    }
    proof {
        assert(dv.subrange(from as int, parts@.len() as int) =~= dv.skip(from as int));
    }
    out
}

/// Does `s` start with the character `c`?
pub fn starts_with_char(s: &str, c: char) -> (r: bool)
    ensures
        r == (s@.len() > 0 && s@[0] == c),
{
    let n = s.unicode_len();
    if n > 0 {
        s.get_char(0) == c
    } else {
        false
    }
}

/// Splits a path into its ordered segments: split on `/`, empty segments
/// dropped, stopping right after a segment that starts with `*`.
pub fn parse_pattern(pattern: &str) -> (parts: Vec<String>)
    ensures
        parts.deep_view() == spec_parse_pattern(pattern@),
{
    let n = pattern.unicode_len();
    let mut raw: Vec<String> = Vec::new();
    let mut start: usize = 0;
    let mut i: usize = 0;
    proof {
        assert(pattern@.take(0) =~= Seq::<char>::empty());
        assert(pattern@.subrange(0, 0) =~= Seq::<char>::empty());
        assert(raw.deep_view() =~= Seq::<Seq<char>>::empty());
    }
    while i < n
        invariant
            start <= i <= n,
            n == pattern@.len(),
            split_slash(pattern@.take(i as int)) == raw.deep_view().push(
                pattern@.subrange(start as int, i as int),
            ),
        decreases n - i,
    {
        let ghost prefix = pattern@.take(i as int);
        let ghost cur = pattern@.subrange(start as int, i as int);
        let c = pattern.get_char(i);
        if c == '/' {
            let seg = pattern.substring_char(start, i).to_owned();
            let ghost old_dv = raw.deep_view();
            proof {
                assert(pattern@.take(i + 1).drop_last() =~= prefix);
                assert(pattern@.take(i + 1).last() == c);
                assert(split_slash(pattern@.take(i + 1)) == old_dv.push(cur).push(
                    Seq::<char>::empty(),
                ));
                assert(pattern@.subrange(i + 1, i + 1) =~= Seq::<char>::empty());
            }
            raw.push(seg);
            proof {
                assert(raw.deep_view() =~= old_dv.push(cur));
            }
            start = i + 1;
        } else {
            proof {
                assert(pattern@.take(i + 1).drop_last() =~= prefix);
                assert(pattern@.take(i + 1).last() == c);
                let prev = split_slash(prefix);
                assert(prev == raw.deep_view().push(cur));
                assert(prev.len() == raw.deep_view().len() + 1);
                assert(prev.last() == cur);
                assert(pattern@.subrange(start as int, i + 1) =~= cur.push(c));
                assert(prev.update(prev.len() - 1, cur.push(c)) =~= raw.deep_view().push(
                    cur.push(c),
                ));
            }
        }
        i += 1;
    }
    let seg = pattern.substring_char(start, n).to_owned();
    proof {
        assert(pattern@.take(n as int) =~= pattern@);
    }
    raw.push(seg);
    proof {
        assert(raw.deep_view() =~= split_slash(pattern@));
    }
    collect_segments(&raw)
}

/// Keeps the nonempty segments of `raw`, in order, up to and including the
/// first one that starts with `*`.
fn collect_segments(raw: &Vec<String>) -> (parts: Vec<String>)
    ensures
        parts.deep_view() == cut_at_star(keep_nonempty(raw.deep_view())),
{
    let mut parts: Vec<String> = Vec::new();
    let mut j: usize = 0;
    proof {
        assert(raw.deep_view().take(0) =~= Seq::<Seq<char>>::empty());
        assert(parts.deep_view() =~= Seq::<Seq<char>>::empty());
        assert(keep_nonempty(Seq::<Seq<char>>::empty()) =~= Seq::<Seq<char>>::empty());
    }
    while j < raw.len()
        invariant
            j <= raw@.len(),
            parts.deep_view() == keep_nonempty(raw.deep_view().take(j as int)),
            forall|k: int|
                0 <= k < parts.deep_view().len() ==> !seg_is_star(#[trigger] parts.deep_view()[k]),
        decreases raw@.len() - j,
    {
        let ghost taken = raw.deep_view().take(j as int);
        let ghost seg_v = raw.deep_view()[j as int];
        let seg = &raw[j];
        proof {
            reveal(Seq::filter);
            assert(seg.deep_view() == seg_v);
            assert(raw.deep_view().take(j + 1).drop_last() =~= taken);
            assert(raw.deep_view().take(j + 1).last() == seg_v);
        }
        if seg.as_str().unicode_len() > 0 {
            let is_star = seg.as_str().get_char(0) == '*';
            let ghost old_parts = parts.deep_view();
            parts.push(seg.clone());
            proof {
                reveal(Seq::filter);
                assert(parts.deep_view() =~= old_parts.push(seg_v));
                assert(keep_nonempty(raw.deep_view().take(j + 1)) == old_parts.push(seg_v));
            }
            if is_star {
                proof {
                    reveal(Seq::filter);
                    let all = raw.deep_view();
                    let rest = all.skip(j + 1);
                    assert(all =~= taken + (seq![seg_v] + rest));
                    Seq::filter_distributes_over_add(
                        taken,
                        seq![seg_v] + rest,
                        |p: Seq<char>| p.len() > 0,
                    );
                    let tail = seq![seg_v] + rest;
                    assert(tail.len() > 0);
                    assert(tail.first() == seg_v);
                    assert(keep_nonempty(tail).len() > 0 && keep_nonempty(tail).first() == seg_v
                        && seg_is_star(keep_nonempty(tail).first())) by {
                        lemma_filter_first_kept(tail, |p: Seq<char>| p.len() > 0);
                    }
                    assert(cut_at_star(keep_nonempty(tail)) == seq![seg_v]);
                    lemma_cut_at_star_skips_prefix(keep_nonempty(taken), keep_nonempty(tail));
                    assert(cut_at_star(keep_nonempty(all)) == keep_nonempty(taken) + seq![seg_v]);
                    assert(keep_nonempty(taken) + seq![seg_v] =~= old_parts.push(seg_v));
                }
                return parts;
            }
        } else {
            proof {
                reveal(Seq::filter);
                assert(keep_nonempty(raw.deep_view().take(j + 1)) == parts.deep_view());
            }
        }
        j += 1;
    }
    proof {
        assert(raw.deep_view().take(raw@.len() as int) =~= raw.deep_view());
        lemma_cut_at_star_id(parts.deep_view());
    }
    parts
}

/// If a sequence's first element satisfies the filter's test, it is also the
/// first element the filter keeps.
proof fn lemma_filter_first_kept(s: Seq<Seq<char>>, pred: spec_fn(Seq<char>) -> bool)
    requires
        s.len() > 0,
        pred(s.first()),
    ensures
        s.filter(pred).len() > 0,
        s.filter(pred).first() == s.first(),
    decreases s.len(),
{
    reveal_with_fuel(Seq::filter, 2);
    if s.len() == 1 {
        assert(s.drop_last() =~= Seq::<Seq<char>>::empty());
    } else {
        lemma_filter_first_kept(s.drop_last(), pred);
        assert(s.drop_last().first() == s.first());
    }
}

} // verus!
