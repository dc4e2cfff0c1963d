//! Search-path resolution for GUI-launched processes.
//!
//! Processes started outside a terminal inherit a minimal `PATH`, so the
//! user's login shell is asked once for its fully-initialized `PATH`.  The
//! shell-reported value is merged with the ambient process value: shell
//! entries first, in order, then any ambient entries not already present,
//! with duplicates and empty segments dropped.

use vstd::prelude::*;

verus! {

/// A search-path string split at every ':' separator.  Splitting the empty
/// string yields one empty segment, as `str::split` does.
pub open spec fn split_on_colons(s: Seq<char>) -> Seq<Seq<char>>
    decreases s.len(),
{
    if s.len() == 0 {
        seq![Seq::<char>::empty()]
    } else {
        let rest = split_on_colons(s.drop_first());
        if s[0] == ':' {
            seq![Seq::<char>::empty()] + rest
        } else {
            seq![seq![s[0]] + rest[0]] + rest.drop_first()
        }
    }
}

/// Path entries joined with ':' separators.
pub open spec fn join_with_colons(entries: Seq<Seq<char>>) -> Seq<char>
    decreases entries.len(),
{
    if entries.len() == 0 {
        Seq::empty()
    } else if entries.len() == 1 {
        entries[0]
    } else {
        entries[0] + seq![':'] + join_with_colons(entries.drop_first())
    }
}

/// The entries kept by a left-to-right merge pass: empty entries and entries
/// already seen are dropped, everything else is kept once, in order.
pub open spec fn dedup_keep(entries: Seq<Seq<char>>, seen: Set<Seq<char>>) -> Seq<Seq<char>>
    decreases entries.len(),
{
    if entries.len() == 0 {
        Seq::empty()
    } else if entries[0].len() == 0 || seen.contains(entries[0]) {
        dedup_keep(entries.drop_first(), seen)
    } else {
        seq![entries[0]] + dedup_keep(entries.drop_first(), seen.insert(entries[0]))
    }
}

/// Deduplication of an entry list, keeping first occurrences of non-empty
/// entries.
pub open spec fn dedup_entries(entries: Seq<Seq<char>>) -> Seq<Seq<char>> {
    dedup_keep(entries, Set::empty())
}

/// The entry list of the merge of two search-path strings.
pub open spec fn merged_entries(primary: Seq<char>, secondary: Seq<char>) -> Seq<Seq<char>> {
    dedup_entries(split_on_colons(primary) + split_on_colons(secondary))
}

/// The merge of two search-path strings, as one ':'-joined string.
pub open spec fn merged_paths(primary: Seq<char>, secondary: Seq<char>) -> Seq<char> {
    join_with_colons(merged_entries(primary, secondary))
}

/// One search-path string with duplicates and empty segments dropped.
pub open spec fn dedup_path(s: Seq<char>) -> Seq<char> {
    join_with_colons(dedup_entries(split_on_colons(s)))
}

/// Appending a separator to a string appends one empty segment to its split.
proof fn lemma_split_push_sep(s: Seq<char>)
    ensures
        split_on_colons(s.push(':')) =~~= split_on_colons(s) + seq![Seq::<char>::empty()],
    decreases s.len(),
{
    if s.len() == 0 {
        assert(s.push(':') =~= seq![':']);
        assert(s.push(':').drop_first() =~= Seq::<char>::empty());
        assert(split_on_colons(Seq::<char>::empty()) =~~= seq![Seq::<char>::empty()]);
        assert(split_on_colons(s.push(':')) =~~= seq![Seq::<char>::empty(), Seq::<char>::empty()]);
        assert(split_on_colons(s) + seq![Seq::<char>::empty()] =~~= seq![
            Seq::<char>::empty(),
            Seq::<char>::empty(),
        ]);
    } else {
        assert(s.push(':').drop_first() =~= s.drop_first().push(':'));
        lemma_split_push_sep(s.drop_first());
        assert(s.push(':')[0] == s[0]);
        if s[0] == ':' {
            assert(split_on_colons(s.push(':')) =~~= split_on_colons(s) + seq![
                Seq::<char>::empty(),
            ]);
        } else {
            let rest = split_on_colons(s.drop_first());
            let restp = split_on_colons(s.drop_first().push(':'));
            assert(restp =~~= rest + seq![Seq::<char>::empty()]);
            assert(restp[0] == rest[0]);
            assert(restp.drop_first() =~~= rest.drop_first() + seq![Seq::<char>::empty()]);
            assert(split_on_colons(s.push(':')) =~~= split_on_colons(s) + seq![
                Seq::<char>::empty(),
            ]);
        }
    }
}

/// Appending an ordinary character extends the final segment of the split.
proof fn lemma_split_push_char(s: Seq<char>, c: char)
    requires
        c != ':',
    ensures
        split_on_colons(s.push(c)) =~~= split_on_colons(s).drop_last().push(
            split_on_colons(s).last().push(c),
        ),
    decreases s.len(),
{
    if s.len() == 0 {
        assert(s.push(c) =~= seq![c]);
        assert(s.push(c).drop_first() =~= Seq::<char>::empty());
        assert(split_on_colons(Seq::<char>::empty()) =~~= seq![Seq::<char>::empty()]);
        assert(split_on_colons(seq![c]) =~~= seq![seq![c] + Seq::<char>::empty()]);
        assert(seq![c] + Seq::<char>::empty() =~= seq![c]);
        assert(split_on_colons(s) =~~= seq![Seq::<char>::empty()]);
    } else {
        assert(s.push(c).drop_first() =~= s.drop_first().push(c));
        lemma_split_push_char(s.drop_first(), c);
        assert(s.push(c)[0] == s[0]);
        let rest = split_on_colons(s.drop_first());
        let restp = split_on_colons(s.drop_first().push(c));
        lemma_split_nonempty(s.drop_first());
        if s[0] == ':' {
            assert(split_on_colons(s) == seq![Seq::<char>::empty()] + rest);
            assert(split_on_colons(s.push(c)) == seq![Seq::<char>::empty()] + restp);
            assert(split_on_colons(s).last() == rest.last());
            assert(split_on_colons(s.push(c)) =~~= split_on_colons(s).drop_last().push(
                split_on_colons(s).last().push(c),
            ));
        } else {
            assert(split_on_colons(s) == seq![seq![s[0]] + rest[0]] + rest.drop_first());
            assert(split_on_colons(s.push(c)) == seq![seq![s[0]] + restp[0]] + restp.drop_first());
            if rest.len() == 1 {
                assert(restp =~~= seq![rest[0].push(c)]);
                assert(split_on_colons(s.push(c)) =~~= split_on_colons(s).drop_last().push(
                    split_on_colons(s).last().push(c),
                ));
            } else {
                assert(restp[0] == rest[0]);
                assert(split_on_colons(s.push(c)) =~~= split_on_colons(s).drop_last().push(
                    split_on_colons(s).last().push(c),
                ));
            }
        }
    }
}

/// A split always has at least one segment.
proof fn lemma_split_nonempty(s: Seq<char>)
    ensures
        split_on_colons(s).len() >= 1,
    decreases s.len(),
{
    if s.len() > 0 {
        lemma_split_nonempty(s.drop_first());
    }
}

/// Split a search-path string at ':' separators.
pub fn split_path(s: &str) -> (r: Vec<String>)
    ensures
        r.deep_view() == split_on_colons(s@),
{
    let n = s.unicode_len();
    let mut r: Vec<String> = Vec::new();
    let mut start: usize = 0;
    let mut i: usize = 0;
    while i < n
        invariant
            n == s@.len(),
            start <= i <= n,
            r.deep_view().push(s@.subrange(start as int, i as int)) =~~= split_on_colons(
                s@.take(i as int),
            ),
        decreases n - i,
    {
        let c = s.get_char(i);
        proof {
            assert(s@.take(i as int + 1) =~= s@.take(i as int).push(s@[i as int]));
        }
        if c == ':' {
            let piece = s.substring_char(start, i).to_owned();
            proof {
                lemma_split_push_sep(s@.take(i as int));
            }
            r.push(piece);
            start = i + 1;
            proof {
                assert(s@.subrange(start as int, i as int + 1) =~= Seq::<char>::empty());
                assert(r.deep_view().push(s@.subrange(start as int, i as int + 1)) =~~= split_on_colons(
                    s@.take(i as int + 1),
                ));
            }
        } else {
            proof {
                lemma_split_push_char(s@.take(i as int), s@[i as int]);
                lemma_split_nonempty(s@.take(i as int));
                assert(s@.subrange(start as int, i as int + 1) =~= s@.subrange(
                    start as int,
                    i as int,
                ).push(s@[i as int]));
                assert(split_on_colons(s@.take(i as int)).last() == s@.subrange(
                    start as int,
                    i as int,
                ));
                assert(split_on_colons(s@.take(i as int)).drop_last() =~~= r.deep_view());
                assert(r.deep_view().push(s@.subrange(start as int, i as int + 1)) =~~= split_on_colons(
                    s@.take(i as int + 1),
                ));
            }
        }
        i = i + 1;
    }
    let last = s.substring_char(start, n).to_owned();
    r.push(last);
    proof {
        assert(s@.take(n as int) =~= s@);
        assert(r.deep_view() =~~= split_on_colons(s@));
    }
    r
}

/// Join path entries with ':' separators.
pub fn join_path(entries: &Vec<String>) -> (r: String)
    ensures
        r@ == join_with_colons(entries.deep_view()),
{
    let mut r = String::new();
    let mut i: usize = 0;
    while i < entries.len()
        invariant
            i <= entries.len(),
            i == 0 ==> r@ == Seq::<char>::empty(),
            i > 0 ==> r@ == join_with_colons(entries.deep_view().take(i as int)),
        decreases entries.len() - i,
    {
        if i > 0 {
            let sep = ":";
            proof {
                reveal_strlit(":");
                assert(sep@ =~= seq![':']);
            }
            r.append(sep);
        }
        r.append(entries[i].as_str());
        proof {
            lemma_join_push(entries.deep_view().take(i as int), entries.deep_view()[i as int]);
            assert(entries.deep_view().take(i as int).push(entries.deep_view()[i as int]) =~~= entries.deep_view().take(
                i as int + 1,
            ));
        }
        i = i + 1;
    }
    proof {
        assert(entries.deep_view().take(entries.len() as int) =~~= entries.deep_view());
    }
    r
}

/// Joining one more entry appends a separator (unless the list was empty)
/// and the entry.
proof fn lemma_join_push(entries: Seq<Seq<char>>, e: Seq<char>)
    ensures
        entries.len() == 0 ==> join_with_colons(entries.push(e)) == e,
        entries.len() > 0 ==> join_with_colons(entries.push(e)) == join_with_colons(entries)
            + seq![':'] + e,
    decreases entries.len(),
{
    if entries.len() == 0 {
        assert(entries.push(e) =~~= seq![e]);
        assert(join_with_colons(seq![e]) == e);
    } else if entries.len() == 1 {
        assert(entries.push(e).drop_first() =~~= seq![e]);
        assert(join_with_colons(seq![e]) == e);
        assert(join_with_colons(entries.push(e)) == entries.push(e)[0] + seq![':'] + join_with_colons(
            entries.push(e).drop_first(),
        ));
        assert(join_with_colons(entries.push(e)) == entries[0] + seq![':'] + e);
        assert(join_with_colons(entries) == entries[0]);
    } else {
        assert(entries.push(e).drop_first() =~~= entries.drop_first().push(e));
        lemma_join_push(entries.drop_first(), e);
        assert(join_with_colons(entries.push(e)) == entries[0] + seq![':'] + (join_with_colons(
            entries.drop_first(),
        ) + seq![':'] + e));
        assert(entries[0] + seq![':'] + (join_with_colons(entries.drop_first()) + seq![':'] + e)
            =~= (entries[0] + seq![':'] + join_with_colons(entries.drop_first())) + seq![':'] + e);
    }
}

/// The set of entries that a merge pass over `entries` has seen afterwards:
/// the starting set plus every non-empty entry of the list.
pub open spec fn seen_after(entries: Seq<Seq<char>>, seen: Set<Seq<char>>) -> Set<Seq<char>>
    decreases entries.len(),
{
    if entries.len() == 0 {
        seen
    } else if entries[0].len() == 0 {
        seen_after(entries.drop_first(), seen)
    } else {
        seen_after(entries.drop_first(), seen.insert(entries[0]))
    }
}

/// Membership in `seen_after`: the starting set plus the non-empty entries.
proof fn lemma_seen_after_membership(x: Seq<Seq<char>>, seen: Set<Seq<char>>)
    ensures
        forall|e: Seq<char>|
            #![trigger seen_after(x, seen).contains(e)]
            seen_after(x, seen).contains(e) <==> (seen.contains(e) || (x.contains(e) && e.len()
                > 0)),
    decreases x.len(),
{
    if x.len() == 0 {
        assert(forall|e: Seq<char>| !x.contains(e));
    } else {
        let rest = x.drop_first();
        assert forall|e: Seq<char>| #[trigger] x.contains(e) implies e == x[0] || rest.contains(e) by {
            let i = choose|i: int| 0 <= i < x.len() && x[i] == e;
            if i > 0 {
                assert(rest[i - 1] == e);
            }
        }
        assert(forall|e: Seq<char>| #[trigger] rest.contains(e) ==> x.contains(e));
        assert(x.contains(x[0]));
        if x[0].len() == 0 {
            lemma_seen_after_membership(rest, seen);
            assert(seen_after(x, seen) == seen_after(rest, seen));
            assert forall|e: Seq<char>|
                #![trigger seen_after(x, seen).contains(e)]
                seen_after(x, seen).contains(e) <==> (seen.contains(e) || (x.contains(e)
                    && e.len() > 0)) by {
                assert(seen_after(rest, seen).contains(e) <==> (seen.contains(e) || (
                rest.contains(e) && e.len() > 0)));
                if x.contains(e) && e.len() > 0 {
                    assert(e == x[0] || rest.contains(e));
                    assert(rest.contains(e));
                }
            }
        } else {
            lemma_seen_after_membership(rest, seen.insert(x[0]));
            assert(seen_after(x, seen) == seen_after(rest, seen.insert(x[0])));
            assert forall|e: Seq<char>|
                #![trigger seen_after(x, seen).contains(e)]
                seen_after(x, seen).contains(e) <==> (seen.contains(e) || (x.contains(e)
                    && e.len() > 0)) by {
                assert(seen_after(rest, seen.insert(x[0])).contains(e) <==> (seen.insert(
                    x[0],
                ).contains(e) || (rest.contains(e) && e.len() > 0)));
                if x.contains(e) && e.len() > 0 {
                    assert(e == x[0] || rest.contains(e));
                }
            }
        }
    }
}

/// What a merge pass keeps: non-empty entries of the input not yet seen,
/// each at most once.
proof fn lemma_dedup_props(es: Seq<Seq<char>>, seen: Set<Seq<char>>)
    ensures
        forall|i: int|
            #![trigger dedup_keep(es, seen)[i]]
            0 <= i < dedup_keep(es, seen).len() ==> es.contains(dedup_keep(es, seen)[i])
                && dedup_keep(es, seen)[i].len() > 0 && !seen.contains(dedup_keep(es, seen)[i]),
        forall|i: int, j: int|
            0 <= i < j < dedup_keep(es, seen).len() ==> dedup_keep(es, seen)[i] != dedup_keep(
                es,
                seen,
            )[j],
        forall|e: Seq<char>|
            #![trigger dedup_keep(es, seen).contains(e)]
            es.contains(e) && e.len() > 0 && !seen.contains(e) ==> dedup_keep(es, seen).contains(
                e,
            ),
    decreases es.len(),
{
    let d = dedup_keep(es, seen);
    if es.len() == 0 {
        assert(forall|e: Seq<char>| !es.contains(e));
    } else {
        let e0 = es[0];
        let rest = es.drop_first();
        assert forall|e: Seq<char>| #[trigger] es.contains(e) implies e == e0 || rest.contains(e) by {
            let i = choose|i: int| 0 <= i < es.len() && es[i] == e;
            if i > 0 {
                assert(rest[i - 1] == e);
            }
        }
        assert(forall|e: Seq<char>| #[trigger] rest.contains(e) ==> es.contains(e));
        assert(es.contains(e0));
        if e0.len() == 0 || seen.contains(e0) {
            lemma_dedup_props(rest, seen);
            assert(d == dedup_keep(rest, seen));
        } else {
            lemma_dedup_props(rest, seen.insert(e0));
            let dr = dedup_keep(rest, seen.insert(e0));
            assert(d == seq![e0] + dr);
            assert(d[0] == e0);
            assert forall|i: int| 0 < i < d.len() implies es.contains(#[trigger] d[i]) && d[i].len() > 0
                && !seen.contains(d[i]) by {
                assert(d[i] == dr[i - 1]);
            }
            assert forall|i: int, j: int| 0 <= i < j < d.len() implies d[i] != d[j] by {
                if i == 0 {
                    assert(d[j] == dr[j - 1]);
                    assert(!seen.insert(e0).contains(dr[j - 1]));
                } else {
                    assert(d[i] == dr[i - 1] && d[j] == dr[j - 1]);
                }
            }
            assert forall|e: Seq<char>|
                #[trigger] es.contains(e) && e.len() > 0 && !seen.contains(e) implies d.contains(e) by {
                if e == e0 {
                    assert(d[0] == e);
                } else {
                    assert(rest.contains(e) && !seen.insert(e0).contains(e));
                    assert(dr.contains(e));
                    let i = choose|i: int| 0 <= i < dr.len() && dr[i] == e;
                    assert(d[i + 1] == e);
                }
            }
        }
    }
}

/// When every entry is empty or already seen, a merge pass keeps nothing.
proof fn lemma_dedup_all_seen(es: Seq<Seq<char>>, seen: Set<Seq<char>>)
    requires
        forall|i: int| 0 <= i < es.len() ==> (#[trigger] es[i]).len() == 0 || seen.contains(es[i]),
    ensures
        dedup_keep(es, seen) =~~= Seq::<Seq<char>>::empty(),
    decreases es.len(),
{
    if es.len() > 0 {
        let rest = es.drop_first();
        assert(forall|i: int|
            0 <= i < rest.len() ==> (#[trigger] rest[i]).len() == 0 || seen.contains(rest[i]));
        lemma_dedup_all_seen(rest, seen);
    }
}

/// A merge pass over a concatenation is the pass over the first part
/// followed by the pass over the second, started from the seen-set the
/// first part leaves behind.
proof fn lemma_dedup_decomp(x: Seq<Seq<char>>, y: Seq<Seq<char>>, seen: Set<Seq<char>>)
    ensures
        dedup_keep(x + y, seen) =~~= dedup_keep(x, seen) + dedup_keep(y, seen_after(x, seen)),
    decreases x.len(),
{
    if x.len() == 0 {
        assert(x + y =~= y);
        assert(dedup_keep(x, seen) =~~= Seq::<Seq<char>>::empty());
    } else {
        let e0 = x[0];
        assert((x + y)[0] == e0);
        assert((x + y).drop_first() =~= x.drop_first() + y);
        if e0.len() == 0 {
            lemma_dedup_decomp(x.drop_first(), y, seen);
        } else if seen.contains(e0) {
            assert(seen.insert(e0) =~= seen);
            lemma_dedup_decomp(x.drop_first(), y, seen);
            assert(seen_after(x, seen) == seen_after(x.drop_first(), seen.insert(e0)));
            assert(seen_after(x.drop_first(), seen.insert(e0)) == seen_after(
                x.drop_first(),
                seen,
            ));
        } else {
            lemma_dedup_decomp(x.drop_first(), y, seen.insert(e0));
            assert(dedup_keep(x + y, seen) == seq![e0] + dedup_keep(
                x.drop_first() + y,
                seen.insert(e0),
            ));
            assert(seq![e0] + (dedup_keep(x.drop_first(), seen.insert(e0)) + dedup_keep(
                y,
                seen_after(x.drop_first(), seen.insert(e0)),
            )) =~~= (seq![e0] + dedup_keep(x.drop_first(), seen.insert(e0))) + dedup_keep(
                y,
                seen_after(x.drop_first(), seen.insert(e0)),
            ));
        }
    }
}

/// The seen-set a merge pass leaves behind is the starting set plus exactly
/// the entries the pass kept.
proof fn lemma_seen_after_is_kept(x: Seq<Seq<char>>, seen: Set<Seq<char>>)
    ensures
        seen_after(x, seen) =~= seen.union(dedup_keep(x, seen).to_set()),
{
    lemma_seen_after_membership(x, seen);
    lemma_dedup_props(x, seen);
    assert forall|e: Seq<char>|
        seen_after(x, seen).contains(e) implies seen.union(
        dedup_keep(x, seen).to_set(),
    ).contains(e) by {
        if !seen.contains(e) {
            assert(x.contains(e) && e.len() > 0);
            assert(dedup_keep(x, seen).contains(e));
        }
    }
    assert forall|e: Seq<char>|
        seen.union(dedup_keep(x, seen).to_set()).contains(e) implies seen_after(
        x,
        seen,
    ).contains(e) by {
        if !seen.contains(e) {
            assert(dedup_keep(x, seen).to_set().contains(e));
            assert(dedup_keep(x, seen).contains(e));
            let i = choose|i: int|
                0 <= i < dedup_keep(x, seen).len() && dedup_keep(x, seen)[i] == e;
            assert(x.contains(e) && e.len() > 0);
        }
    }
}

/// Whether two strings hold the same characters.
pub(crate) fn string_eq(a: &String, b: &String) -> (r: bool)
    ensures
        r == (a@ == b@),
{
    *a == *b
}

/// Whether `entries` already holds `x`.
fn contains_entry(entries: &Vec<String>, x: &String) -> (r: bool)
    ensures
        r == entries.deep_view().contains(x@),
{
    let mut i: usize = 0;
    while i < entries.len()
        invariant
            i <= entries.len(),
            forall|j: int| 0 <= j < i ==> entries.deep_view()[j] != x@,
        decreases entries.len() - i,
    {
        if string_eq(&entries[i], x) {
            proof {
                assert(entries.deep_view()[i as int] == x@);
                assert(entries.deep_view().contains(x@));
            }
            return true;
        }
        i = i + 1;
    }
    proof {
        assert(forall|j: int| 0 <= j < entries.deep_view().len() ==> entries.deep_view()[j] != x@);
    }
    false
}

/// Append the entries of `src` that are non-empty and not yet present in
/// `dst`, in order.
fn merge_into(dst: &mut Vec<String>, src: &Vec<String>)
    ensures
        final(dst).deep_view() =~~= old(dst).deep_view() + dedup_keep(
            src.deep_view(),
            old(dst).deep_view().to_set(),
        ),
{
    proof {
        assert(src.deep_view().skip(0) =~= src.deep_view());
    }
    let mut i: usize = 0;
    while i < src.len()
        invariant
            i <= src.len(),
            dst.deep_view() + dedup_keep(src.deep_view().skip(i as int), dst.deep_view().to_set())
                =~~= old(dst).deep_view() + dedup_keep(
                src.deep_view(),
                old(dst).deep_view().to_set(),
            ),
        decreases src.len() - i,
    {
        let ghost pre = dst.deep_view();
        let ghost rem = src.deep_view().skip(i as int);
        proof {
            assert(rem[0] == src.deep_view()[i as int]);
            assert(rem.drop_first() =~= src.deep_view().skip(i as int + 1));
        }
        let e = &src[i];
        if e.as_str().is_empty() {
            proof {
                assert(src.deep_view()[i as int].len() == 0);
                assert(dedup_keep(rem, pre.to_set()) == dedup_keep(
                    rem.drop_first(),
                    pre.to_set(),
                ));
            }
        } else if contains_entry(dst, e) {
            proof {
                assert(pre.to_set().contains(src.deep_view()[i as int]));
                assert(dedup_keep(rem, pre.to_set()) == dedup_keep(
                    rem.drop_first(),
                    pre.to_set(),
                ));
            }
        } else {
            let owned = e.clone();
            dst.push(owned);
            proof {
                let ev = src.deep_view()[i as int];
                assert(dst.deep_view() =~~= pre.push(ev));
                assert(dedup_keep(rem, pre.to_set()) == seq![ev] + dedup_keep(
                    rem.drop_first(),
                    pre.to_set().insert(ev),
                ));
                assert(dst.deep_view().to_set() =~= pre.to_set().insert(ev)) by {
                    assert forall|a: Seq<char>| dst.deep_view().to_set().contains(a) implies pre.to_set().insert(
                        ev,
                    ).contains(a) by {
                        let k = choose|k: int|
                            0 <= k < dst.deep_view().len() && dst.deep_view()[k] == a;
                        if k < pre.len() {
                            assert(pre[k] == a);
                        }
                    }
                    assert forall|a: Seq<char>| pre.to_set().insert(ev).contains(a) implies dst.deep_view().to_set().contains(
                        a,
                    ) by {
                        if pre.to_set().contains(a) {
                            let k = choose|k: int| 0 <= k < pre.len() && pre[k] == a;
                            assert(dst.deep_view()[k] == a);
                        } else {
                            assert(dst.deep_view()[pre.len() as int] == ev);
                        }
                    }
                }
                assert(pre + (seq![ev] + dedup_keep(rem.drop_first(), pre.to_set().insert(ev)))
                    =~~= pre.push(ev) + dedup_keep(rem.drop_first(), pre.to_set().insert(ev)));
            }
        }
        i = i + 1;
    }
    proof {
        assert(src.deep_view().skip(src.len() as int) =~= Seq::<Seq<char>>::empty());
        assert(dedup_keep(
            src.deep_view().skip(src.len() as int),
            dst.deep_view().to_set(),
        ) =~~= Seq::<Seq<char>>::empty());
        assert(dst.deep_view() + Seq::<Seq<char>>::empty() =~~= dst.deep_view());
    }
}

/// Merge two search-path strings: entries of `primary` first, in their
/// original order, then entries of `secondary` not already present, with
/// duplicates and empty segments dropped.
pub fn merge_paths(primary: &str, secondary: &str) -> (r: String)
    ensures
        r@ == merged_paths(primary@, secondary@),
{
    let a = split_path(primary);
    let b = split_path(secondary);
    let mut entries: Vec<String> = Vec::new();
    proof {
        assert(entries.deep_view() =~~= Seq::<Seq<char>>::empty());
    }
    let ghost empty_entries: Seq<Seq<char>> = entries.deep_view();
    merge_into(&mut entries, &a);
    let ghost after_a: Seq<Seq<char>> = entries.deep_view();
    merge_into(&mut entries, &b);
    proof {
        assert(empty_entries.to_set() =~= Set::<Seq<char>>::empty());
        assert(empty_entries + dedup_keep(a.deep_view(), empty_entries.to_set()) =~~= dedup_keep(
            a.deep_view(),
            Set::empty(),
        ));
        lemma_dedup_decomp(a.deep_view(), b.deep_view(), Set::empty());
        lemma_seen_after_is_kept(a.deep_view(), Set::empty());
        assert(Set::<Seq<char>>::empty().union(
            dedup_keep(a.deep_view(), Set::empty()).to_set(),
        ) =~= dedup_keep(a.deep_view(), Set::empty()).to_set());
        assert(after_a.to_set() == seen_after(a.deep_view(), Set::empty()));
        assert(entries.deep_view() =~~= dedup_entries(a.deep_view() + b.deep_view()));
        assert(entries.deep_view() =~~= merged_entries(primary@, secondary@));
    }
    join_path(&entries)
}

/// Law: the merge of two path strings keeps the deduplicated non-empty
/// entries of the primary first, in their original order; every entry that
/// follows comes from the secondary and was absent from the primary; and the
/// result has no duplicate and no empty entries.
pub proof fn lemma_merge_preserves_primary(primary: Seq<char>, secondary: Seq<char>)
    ensures
        merged_entries(primary, secondary).take(
            dedup_entries(split_on_colons(primary)).len() as int,
        ) == dedup_entries(split_on_colons(primary)),
        forall|e: Seq<char>|
            #[trigger] split_on_colons(primary).contains(e) && e.len() > 0 ==> merged_entries(
                primary,
                secondary,
            ).contains(e),
        forall|j: int|
            dedup_entries(split_on_colons(primary)).len() <= j < merged_entries(
                primary,
                secondary,
            ).len() ==> split_on_colons(secondary).contains(
                #[trigger] merged_entries(primary, secondary)[j],
            ) && !split_on_colons(primary).contains(merged_entries(primary, secondary)[j]),
        forall|i: int, j: int|
            0 <= i < j < merged_entries(primary, secondary).len() ==> merged_entries(
                primary,
                secondary,
            )[i] != merged_entries(primary, secondary)[j],
        forall|i: int|
            0 <= i < merged_entries(primary, secondary).len() ==> (#[trigger] merged_entries(
                primary,
                secondary,
            )[i]).len() > 0,
{
    let a = split_on_colons(primary);
    let b = split_on_colons(secondary);
    let sa = seen_after(a, Set::<Seq<char>>::empty());
    let da = dedup_entries(a);
    let db = dedup_keep(b, sa);
    let m = merged_entries(primary, secondary);
    lemma_dedup_decomp(a, b, Set::empty());
    lemma_dedup_props(a, Set::empty());
    lemma_dedup_props(b, sa);
    lemma_seen_after_membership(a, Set::empty());
    assert(m =~~= da + db);
    assert(m.take(da.len() as int) =~~= da);
    assert forall|e: Seq<char>| #[trigger] a.contains(e) && e.len() > 0 implies m.contains(e) by {
        assert(da.contains(e));
        let i = choose|i: int| 0 <= i < da.len() && da[i] == e;
        assert(m[i] == e);
        assert(m.contains(e));
    }
    assert forall|j: int| da.len() <= j < m.len() implies b.contains(#[trigger] m[j])
        && !a.contains(m[j]) by {
        assert(m[j] == db[j - da.len()]);
        assert(b.contains(db[j - da.len()]));
        assert(db[j - da.len()].len() > 0);
        assert(!sa.contains(db[j - da.len()]));
        if a.contains(m[j]) {
            assert(sa.contains(m[j]));
        }
    }
    assert forall|i: int, j: int| 0 <= i < j < m.len() implies m[i] != m[j] by {
        if j < da.len() {
            assert(m[i] == da[i] && m[j] == da[j]);
        } else if i >= da.len() {
            assert(m[i] == db[i - da.len()] && m[j] == db[j - da.len()]);
        } else {
            assert(m[i] == da[i] && m[j] == db[j - da.len()]);
            assert(a.contains(da[i]) && da[i].len() > 0);
            assert(sa.contains(da[i]));
            assert(!sa.contains(db[j - da.len()]));
        }
    }
    assert forall|i: int| 0 <= i < m.len() implies (#[trigger] m[i]).len() > 0 by {
        if i < da.len() {
            assert(m[i] == da[i]);
        } else {
            assert(m[i] == db[i - da.len()]);
        }
    }
}

/// Law: merging a path string with itself deduplicates it.
pub proof fn lemma_merge_idempotent(s: Seq<char>)
    ensures
        merged_paths(s, s) == dedup_path(s),
{
    let a = split_on_colons(s);
    let sa = seen_after(a, Set::<Seq<char>>::empty());
    lemma_dedup_decomp(a, a, Set::empty());
    lemma_seen_after_membership(a, Set::empty());
    assert forall|i: int| 0 <= i < a.len() implies (#[trigger] a[i]).len() == 0 || sa.contains(
        a[i],
    ) by {
        assert(a.contains(a[i]));
    }
    lemma_dedup_all_seen(a, sa);
    assert(merged_entries(s, s) =~~= dedup_entries(a) + Seq::<Seq<char>>::empty());
    assert(merged_entries(s, s) =~~= dedup_entries(a));
}

/// Law: merging with an empty path string on either side deduplicates the
/// other side.
pub proof fn lemma_merge_empty(s: Seq<char>)
    ensures
        merged_paths(Seq::<char>::empty(), s) == dedup_path(s),
        merged_paths(s, Seq::<char>::empty()) == dedup_path(s),
{
    let a = split_on_colons(Seq::<char>::empty());
    let x = split_on_colons(s);
    assert(a =~~= seq![Seq::<char>::empty()]);
    assert(a.drop_first() =~= Seq::<Seq<char>>::empty());
    assert(dedup_keep(a.drop_first(), Set::<Seq<char>>::empty()) =~~= Seq::<Seq<char>>::empty());
    assert(dedup_keep(a, Set::<Seq<char>>::empty()) =~~= Seq::<Seq<char>>::empty());
    assert(seen_after(a, Set::<Seq<char>>::empty()) == seen_after(
        a.drop_first(),
        Set::<Seq<char>>::empty(),
    ));
    assert(seen_after(a, Set::<Seq<char>>::empty()) == Set::<Seq<char>>::empty());
    lemma_dedup_decomp(a, x, Set::empty());
    assert(merged_entries(Seq::<char>::empty(), s) =~~= Seq::<Seq<char>>::empty() + dedup_entries(
        x,
    ));
    assert(merged_entries(Seq::<char>::empty(), s) =~~= dedup_entries(x));
    lemma_dedup_decomp(x, a, Set::empty());
    let sx = seen_after(x, Set::<Seq<char>>::empty());
    assert(forall|i: int| 0 <= i < a.len() ==> (#[trigger] a[i]).len() == 0);
    lemma_dedup_all_seen(a, sx);
    assert(merged_entries(s, Seq::<char>::empty()) =~~= dedup_entries(x) + Seq::<Seq<char>>::empty());
    assert(merged_entries(s, Seq::<char>::empty()) =~~= dedup_entries(x));
}

/// ASCII whitespace, as found around a shell's printed output.
pub open spec fn is_ascii_space(c: char) -> bool {
    c == ' ' || c == '\t' || c == '\n' || c == '\r'
}

/// A character sequence without its leading whitespace.
pub open spec fn drop_leading_spaces(s: Seq<char>) -> Seq<char>
    decreases s.len(),
{
    if s.len() > 0 && is_ascii_space(s[0]) {
        drop_leading_spaces(s.drop_first())
    } else {
        s
    }
}

/// A character sequence without its trailing whitespace.
pub open spec fn drop_trailing_spaces(s: Seq<char>) -> Seq<char>
    decreases s.len(),
{
    if s.len() > 0 && is_ascii_space(s.last()) {
        drop_trailing_spaces(s.drop_last())
    } else {
        s
    }
}

/// A character sequence without surrounding whitespace.
pub open spec fn trimmed(s: Seq<char>) -> Seq<char> {
    drop_trailing_spaces(drop_leading_spaces(s))
}

/// Whether `c` is ASCII whitespace.
fn is_space_char(c: char) -> (r: bool)
    ensures
        r == is_ascii_space(c),
{
    c == ' ' || c == '\t' || c == '\n' || c == '\r'
}

/// Strip surrounding ASCII whitespace.
pub fn trim_spaces(s: &str) -> (r: String)
    ensures
        r@ == trimmed(s@),
{
    let n = s.unicode_len();
    proof {
        assert(s@.skip(0) =~= s@);
    }
    let mut lo: usize = 0;
    loop
        invariant
            n == s@.len(),
            lo <= n,
            drop_leading_spaces(s@) == drop_leading_spaces(s@.skip(lo as int)),
        ensures
            lo <= n,
            drop_leading_spaces(s@) =~= s@.skip(lo as int),
        decreases n - lo,
    {
        if lo < n {
            let c = s.get_char(lo);
            proof {
                assert(s@.skip(lo as int)[0] == s@[lo as int]);
            }
            if is_space_char(c) {
                proof {
                    assert(s@.skip(lo as int).drop_first() =~= s@.skip(lo as int + 1));
                }
                lo = lo + 1;
            } else {
                proof {
                    assert(drop_leading_spaces(s@.skip(lo as int)) == s@.skip(lo as int));
                }
                break;
            }
        } else {
            proof {
                assert(s@.skip(lo as int) =~= Seq::<char>::empty());
                assert(drop_leading_spaces(s@.skip(lo as int)) == s@.skip(lo as int));
            }
            break;
        }
    }
    let ghost t = s@.skip(lo as int);
    proof {
        assert(s@.subrange(lo as int, n as int) =~= s@.skip(lo as int));
    }
    let mut hi: usize = n;
    loop
        invariant
            n == s@.len(),
            lo <= hi <= n,
            t == s@.skip(lo as int),
            drop_trailing_spaces(t) == drop_trailing_spaces(s@.subrange(lo as int, hi as int)),
        ensures
            lo <= hi <= n,
            drop_trailing_spaces(t) =~= s@.subrange(lo as int, hi as int),
        decreases hi,
    {
        if hi > lo {
            let c = s.get_char(hi - 1);
            proof {
                assert(s@.subrange(lo as int, hi as int).last() == s@[hi as int - 1]);
            }
            if is_space_char(c) {
                proof {
                    assert(s@.subrange(lo as int, hi as int).drop_last() =~= s@.subrange(
                        lo as int,
                        hi as int - 1,
                    ));
                }
                hi = hi - 1;
            } else {
                proof {
                    assert(drop_trailing_spaces(s@.subrange(lo as int, hi as int)) == s@.subrange(
                        lo as int,
                        hi as int,
                    ));
                }
                break;
            }
        } else {
            proof {
                assert(s@.subrange(lo as int, hi as int) =~= Seq::<char>::empty());
                assert(drop_trailing_spaces(s@.subrange(lo as int, hi as int)) == s@.subrange(
                    lo as int,
                    hi as int,
                ));
            }
            break;
        }
    }
    proof {
        assert(t.take(hi as int - lo as int) =~= s@.subrange(lo as int, hi as int));
        assert(trimmed(s@) == s@.subrange(lo as int, hi as int));
    }
    s.substring_char(lo, hi).to_owned()
}

/// Post-process the output captured from one shell invocation: surrounding
/// whitespace is stripped, and an empty result counts as a failed attempt.
pub fn clean_shell_output(raw: &str) -> (r: Option<String>)
    ensures
        trimmed(raw@).len() == 0 ==> r is None,
        trimmed(raw@).len() > 0 ==> (r matches Some(p) && p@ == trimmed(raw@)),
{
    let t = trim_spaces(raw);
    if t.as_str().is_empty() {
        None
    } else {
        Some(t)
    }
}

/// The flag set for one attempt at asking the login shell for its PATH.
#[derive(Clone, Copy, PartialEq, Eq, Structural, Debug)]
pub enum ShellFlags {
    /// `-l -i`: login plus interactive, so that interactive-only startup
    /// files are sourced too.
    LoginInteractive,
    /// `-l` alone, for shells that reject the interactive flag without a
    /// terminal.
    LoginOnly,
}

/// What the resolver should do next after one shell invocation came back.
pub enum ShellStep {
    /// Run the shell again with the given flag set.
    Retry(ShellFlags),
    /// Resolution succeeded; use this merged search path.
    Resolved(String),
    /// Both attempts failed; fall back to the ambient process path.
    Ambient,
}

/// The command handed to the shell: print its PATH with no trailing newline.
pub open spec fn path_print_command() -> Seq<char> {
    "printf \"%s\" \"$PATH\""@
}

/// The shell to ask, from the shell-selection environment variable, with a
/// POSIX fallback when it is unset.
pub fn choose_shell(env_shell: Option<String>) -> (r: String)
    ensures
        env_shell matches Some(s) ==> r@ == s@,
        env_shell is None ==> r@ == "/bin/sh"@,
{
    match env_shell {
        Some(s) => s,
        None => "/bin/sh".to_owned(),
    }
}

/// The argument list for one shell invocation: the flags, `-c`, then the
/// command that prints the shell's PATH.
pub fn shell_invocation_args(flags: ShellFlags) -> (r: Vec<String>)
    ensures
        flags == ShellFlags::LoginInteractive ==> r.deep_view() =~~= seq![
            "-l"@,
            "-i"@,
            "-c"@,
            path_print_command(),
        ],
        flags == ShellFlags::LoginOnly ==> r.deep_view() =~~= seq![
            "-l"@,
            "-c"@,
            path_print_command(),
        ],
{
    let mut r: Vec<String> = Vec::new();
    r.push("-l".to_owned());
    match flags {
        ShellFlags::LoginInteractive => {
            r.push("-i".to_owned());
        },
        ShellFlags::LoginOnly => {},
    }
    r.push("-c".to_owned());
    r.push("printf \"%s\" \"$PATH\"".to_owned());
    r
}

/// Decide what follows one shell invocation.  A non-empty trimmed PATH wins
/// and is merged with the ambient path; a failed first attempt is retried
/// with the login flag only; a failed second attempt falls back to the
/// ambient path.
pub fn shell_resolution_next(stage: ShellFlags, output: Option<&str>, ambient: &str) -> (r:
    ShellStep)
    ensures
        (output is Some && trimmed(output->Some_0@).len() > 0) ==> (r matches
        ShellStep::Resolved(p) && p@ == merged_paths(trimmed(output->Some_0@), ambient@)),
        (output is None || trimmed(output->Some_0@).len() == 0) && stage
            == ShellFlags::LoginInteractive ==> r == ShellStep::Retry(ShellFlags::LoginOnly),
        (output is None || trimmed(output->Some_0@).len() == 0) && stage == ShellFlags::LoginOnly
            ==> r is Ambient,
{
    let cleaned = match output {
        Some(o) => clean_shell_output(o),
        None => None,
    };
    match cleaned {
        Some(p) => ShellStep::Resolved(merge_paths(p.as_str(), ambient)),
        None => match stage {
            ShellFlags::LoginInteractive => ShellStep::Retry(ShellFlags::LoginOnly),
            ShellFlags::LoginOnly => ShellStep::Ambient,
        },
    }
}

} // verus!
