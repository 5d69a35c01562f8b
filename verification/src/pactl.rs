//! Reading what `pactl` prints, and the text Audiover hands to it and to
//! WirePlumber's state files: physical endpoints, the sink a device name
//! stands for, leftover modules, and scrubbing stale routing rules.
use vstd::prelude::*;
use crate::devices;
use crate::text;

verus! {

/// The default endpoint `pactl get-default-*` reported: its output
/// trimmed, when the command succeeded and that is not empty.
pub fn default_from_output(success: bool, stdout: &str) -> (r: Option<String>)
    ensures
        !success ==> r is None,
        success ==> (match r {
            Some(s) => s@ == text::trim_seq(stdout@) && s@.len() > 0,
            None => text::trim_seq(stdout@).len() == 0,
        }),
{
    if !success {
        return None;
    }
    let t = text::trim(stdout);
    if t.as_str().is_empty() {
        None
    } else {
        Some(t)
    }
}

/// An endpoint name that can stand for the physical default: not virtual,
/// and for sources not a sink's monitor.
pub open spec fn usable_endpoint(name: Seq<char>, source: bool) -> bool {
    !devices::virtual_name(name) && !(source && text::ends_with_seq(name, ".monitor"@))
}

/// The second whitespace-separated field of a line, if it has one.
pub open spec fn second_field(line: Seq<char>) -> Option<Seq<char>> {
    let f = text::fields_seq(line);
    if f.len() >= 2 {
        Some(f[1])
    } else {
        None
    }
}

/// The endpoint names a `pactl list short sinks|sources` listing gives,
/// line by line (the second field of each line that has one).
pub open spec fn listed_names(listing: Seq<char>) -> Seq<Option<Seq<char>>> {
    text::lines_seq(listing).map_values(|l: Seq<char>| second_field(l))
}

/// Whether `name` can stand for the physical default endpoint.
pub fn is_usable_endpoint(name: &str, source: bool) -> (b: bool)
    ensures
        b == usable_endpoint(name@, source),
{
    !devices::is_virtual_device_name(name) && !(source && text::ends_with_str(name, ".monitor"))
}

/// The first usable endpoint in a `pactl list short sinks` (or, with
/// `source`, `sources`) listing.
pub fn first_usable_listed(listing: &str, source: bool) -> (r: Option<String>)
    ensures
        match r {
            Some(n) => exists|i: int|
                0 <= i < listed_names(listing@).len() && #[trigger] listed_names(listing@)[i] == Some(n@)
                    && usable_endpoint(n@, source) && forall|j: int|
                    0 <= j < i ==> !(#[trigger] listed_names(listing@)[j] matches Some(m)
                        && usable_endpoint(m, source)),
            None => forall|j: int|
                0 <= j < listed_names(listing@).len() ==> !(#[trigger] listed_names(listing@)[j] matches Some(m)
                    && usable_endpoint(m, source)),
        },
{
    let ls = text::lines(listing);
    let ghost names = listed_names(listing@);
    let mut i: usize = 0;
    while i < ls.len()
        invariant
            0 <= i <= ls.len(),
            names == listed_names(listing@),
            ls.len() == text::lines_seq(listing@).len(),
            names.len() == ls.len(),
            forall|k: int| 0 <= k < ls.len() ==> (#[trigger] ls@[k])@ == text::lines_seq(listing@)[k],
            forall|j: int| 0 <= j < i ==> !(#[trigger] names[j] matches Some(m) && usable_endpoint(m, source)),
        decreases ls.len() - i,
    {
        let f = text::fields(ls[i].as_str());
        proof {
            assert(names[i as int] == second_field(ls@[i as int]@));
        }
        if f.len() >= 2 {
            if is_usable_endpoint(f[1].as_str(), source) {
                return Some(f[1].clone());
            }
        }
        i += 1;
    }
    None
}

/// The physical default endpoint: the reported default when usable,
/// else the first usable endpoint listed (when a listing could be read).
pub fn physical_default(default: Option<&str>, listing: Option<&str>, source: bool) -> (r: Option<String>)
    ensures
        (default matches Some(d) && usable_endpoint(d@, source)) ==> (r matches Some(s) && s@ == default->0@),
        !(default matches Some(d) && usable_endpoint(d@, source)) ==> (match listing {
            None => r is None,
            Some(l) => match r {
                Some(n) => exists|i: int|
                    0 <= i < listed_names(l@).len() && #[trigger] listed_names(l@)[i] == Some(n@)
                        && usable_endpoint(n@, source) && forall|j: int|
                        0 <= j < i ==> !(#[trigger] listed_names(l@)[j] matches Some(m)
                            && usable_endpoint(m, source)),
                None => forall|j: int|
                    0 <= j < listed_names(l@).len() ==> !(#[trigger] listed_names(l@)[j] matches Some(m)
                        && usable_endpoint(m, source)),
            },
        }),
        r matches Some(s) ==> usable_endpoint(s@, source),
{
    if let Some(d) = default {
        if is_usable_endpoint(d, source) {
            return Some(d.to_string());
        }
    }
    match listing {
        Some(l) => first_usable_listed(l, source),
        None => None,
    }
}

/// The lower-cased query a device name gives for finding its sink, or
/// `None` when it cannot name a physical sink (empty, virtual, `none`, or
/// mentioning `pipewire` or `default`).
pub fn sink_query(name_or_desc: Option<&str>) -> (r: Option<String>)
    ensures
        match name_or_desc {
            None => r is None,
            Some(s) => {
                let q = text::lowercase(text::trim_seq(s@));
                (r is Some) == usable_query(q) && (r matches Some(x) ==> x@ == q)
            },
        },
{
    match name_or_desc {
        None => None,
        Some(s) => {
            let t = text::trim(s);
            let q = text::to_lower(t.as_str());
            query_if_usable(q)
        },
    }
}

/// A lower-cased query that can name a physical sink: not empty, not
/// virtual, not `none`, and not mentioning `pipewire` or `default`.
pub open spec fn usable_query(q: Seq<char>) -> bool {
    q.len() > 0 && !devices::virtual_name(q) && q != "none"@ && !text::contains_seq(q, "pipewire"@)
        && !text::contains_seq(q, "default"@)
}

/// The lower-cased query `q` when it can name a physical sink (see
/// `usable_query`).
pub fn query_if_usable(q: String) -> (r: Option<String>)
    ensures
        (r is Some) == usable_query(q@),
        r matches Some(x) ==> x@ == q@,
{
    let qs = q.as_str();
    if !qs.is_empty() && !devices::is_virtual_device_name(qs) && !text::same_text(qs, "none")
        && !text::contains_str(qs, "pipewire") && !text::contains_str(qs, "default") {
        Some(q)
    } else {
        None
    }
}

/// `line` with every leading `prefix` removed (what
/// `str::trim_start_matches` does with a string pattern).
pub open spec fn strip_prefixes(line: Seq<char>, prefix: Seq<char>) -> Seq<char>
    decreases line.len(),
{
    if prefix.len() > 0 && text::starts_with_seq(line, prefix) {
        strip_prefixes(line.subrange(prefix.len() as int, line.len() as int), prefix)
    } else {
        line
    }
}

/// State of the scan over `pactl list sinks`: the sink whose block is
/// being read and whether its block mentions the query.
pub open spec fn scan_state(lines: Seq<Seq<char>>, query: Seq<char>) -> (Option<Seq<char>>, bool, Option<Seq<char>>)
    decreases lines.len(),
{
    // (current sink, current block matched, sink found earlier)
    if lines.len() == 0 {
        (None, false, None)
    } else {
        let (cur, matched, found) = scan_state(lines.drop_last(), query);
        if found is Some {
            (cur, matched, found)
        } else {
            let t = text::trim_seq(lines.last());
            if text::starts_with_seq(t, "Name: "@) {
                if matched && cur is Some && !devices::virtual_name(cur->0) {
                    (cur, matched, cur)
                } else {
                    let name = text::trim_seq(strip_prefixes(t, "Name: "@));
                    (Some(name), text::contains_seq(text::lowercase(name), query), None)
                }
            } else if cur is Some {
                (cur, matched || text::contains_seq(text::lowercase(t), query), None)
            } else {
                (cur, matched, None)
            }
        }
    }
}

/// The sink a `pactl list sinks` listing names for the lower-cased
/// `query`: the first non-virtual sink whose block (its `Name:` line or
/// any line after it) mentions the query.
pub open spec fn sink_in_listing(listing: Seq<char>, query: Seq<char>) -> Option<Seq<char>> {
    let (cur, matched, found) = scan_state(text::lines_seq(listing), query);
    if found is Some {
        found
    } else if matched && cur is Some && !devices::virtual_name(cur->0) {
        cur
    } else {
        None
    }
}

fn strip_prefixes_exec(line: &str, prefix: &str) -> (r: String)
    ensures
        r@ == strip_prefixes(line@, prefix@),
{
    let l = text::chars_of(line);
    let p = text::chars_of(prefix);
    let mut start: usize = 0;
    if p.len() == 0 {
        return line.to_string();
    }
    assert(l@.subrange(0, l.len() as int) =~= l@);
    while p.len() <= l.len() - start && prefix_at(&l, &p, start)
        invariant
            start <= l.len(),
            p.len() > 0,
            p@ == prefix@,
            strip_prefixes(line@, prefix@) == strip_prefixes(l@.subrange(start as int, l.len() as int), prefix@),
            l@ == line@,
        decreases l.len() - start,
    {
        proof {
            let rest = l@.subrange(start as int, l.len() as int);
            assert(rest.subrange(0, p.len() as int) =~= l@.subrange(start as int, start + p.len()));
            assert(rest.subrange(p.len() as int, rest.len() as int) =~= l@.subrange(start + p.len(), l.len() as int));
        }
        start = start + p.len();
    }
    proof {
        let rest = l@.subrange(start as int, l.len() as int);
        if rest.len() >= p.len() {
            assert(rest.subrange(0, p.len() as int) =~= l@.subrange(start as int, start + p.len()));
        }
        assert(l@.subrange(0, l.len() as int) =~= l@);
    }
    text::string_of_range(&l, start, l.len())
}

fn prefix_at(l: &Vec<char>, p: &Vec<char>, start: usize) -> (b: bool)
    requires
        start + p.len() <= l.len(),
    ensures
        b == (l@.subrange(start as int, start + p.len()) == p@),
{
    let mut k: usize = 0;
    while k < p.len()
        invariant
            start + p.len() <= l.len(),
            0 <= k <= p.len(),
            forall|m: int| 0 <= m < k ==> l@[start + m] == p@[m],
        decreases p.len() - k,
    {
        if l[start + k] != p[k] {
            assert(l@.subrange(start as int, start + p.len())[k as int] != p@[k as int]);
            return false;
        }
        k += 1;
    }
    assert(l@.subrange(start as int, start + p.len()) =~= p@);
    true
}

/// The sink a `pactl list sinks` listing names for the lower-cased
/// `query` (see `sink_in_listing`).
pub fn sink_from_listing(query: &str, listing: &str) -> (r: Option<String>)
    ensures
        match r {
            Some(s) => sink_in_listing(listing@, query@) == Some(s@),
            None => sink_in_listing(listing@, query@) is None,
        },
{
    let ls = text::lines(listing);
    let mut cur: Option<String> = None;
    let mut matched = false;
    let mut i: usize = 0;
    let ghost all = text::lines_seq(listing@);
    while i < ls.len()
        invariant
            0 <= i <= ls.len(),
            all == text::lines_seq(listing@),
            ls.len() == all.len(),
            forall|k: int| 0 <= k < ls.len() ==> (#[trigger] ls@[k])@ == all[k],
            scan_state(all.subrange(0, i as int), query@) == (
                match cur {
                    Some(c) => Some(c@),
                    None => None::<Seq<char>>,
                },
                matched,
                None::<Seq<char>>,
            ),
        decreases ls.len() - i,
    {
        proof {
            assert(all.subrange(0, i + 1).drop_last() =~= all.subrange(0, i as int));
            assert(all.subrange(0, i + 1).last() == ls@[i as int]@);
        }
        let t = text::trim(ls[i].as_str());
        if text::starts_with_str(t.as_str(), "Name: ") {
            if matched {
                if let Some(c) = &cur {
                    if !devices::is_virtual_device_name(c.as_str()) {
                        let found = c.clone();
                        proof {
                            lemma_scan_found_stays(all, query@, (i + 1) as int);
                            assert(all.subrange(0, all.len() as int) =~= all);
                        }
                        return Some(found);
                    }
                }
            }
            let stripped = strip_prefixes_exec(t.as_str(), "Name: ");
            let name = text::trim(stripped.as_str());
            let lower = text::to_lower(name.as_str());
            matched = text::contains_str(lower.as_str(), query);
            cur = Some(name);
        } else if cur.is_some() {
            let lower = text::to_lower(t.as_str());
            if text::contains_str(lower.as_str(), query) {
                matched = true;
            }
        }
        i += 1;
    }
    proof {
        assert(all.subrange(0, all.len() as int) =~= all);
    }
    if matched {
        if let Some(c) = cur {
            if !devices::is_virtual_device_name(c.as_str()) {
                return Some(c);
            }
        }
    }
    None
}

/// Once the scan has found a sink, reading more lines keeps it.
proof fn lemma_scan_found_stays(all: Seq<Seq<char>>, query: Seq<char>, i: int)
    requires
        0 <= i <= all.len(),
        scan_state(all.subrange(0, i), query).2 is Some,
    ensures
        scan_state(all, query).2 == scan_state(all.subrange(0, i), query).2,
        scan_state(all, query).2 is Some,
    decreases all.len() - i,
{
    if i < all.len() {
        let next = all.subrange(0, i + 1);
        assert(next.drop_last() =~= all.subrange(0, i));
        lemma_scan_found_stays(all, query, i + 1);
    } else {
        assert(all.subrange(0, i) =~= all);
    }
}

/// The module ids of a `pactl list short modules` listing (first field of
/// each line) on lines that mention the sink name, the source name or
/// `Audiover`.
pub open spec fn leftover_line(line: Seq<char>, sink: Seq<char>, source: Seq<char>) -> bool {
    text::contains_seq(line, sink) || text::contains_seq(line, source) || text::contains_seq(
        line,
        "Audiover"@,
    )
}

/// The module ids on the given lines: the first field of each line that
/// mentions the sink name, the source name or `Audiover` and has a field.
pub open spec fn ids_on_lines(lines: Seq<Seq<char>>, sink: Seq<char>, source: Seq<char>) -> Seq<Seq<char>>
    decreases lines.len(),
{
    if lines.len() == 0 {
        Seq::empty()
    } else {
        let before = ids_on_lines(lines.drop_last(), sink, source);
        let l = lines.last();
        if leftover_line(l, sink, source) && text::fields_seq(l).len() > 0 {
            before.push(text::fields_seq(l)[0])
        } else {
            before
        }
    }
}

/// Ids of the leftover Audiover modules in a `pactl list short modules`
/// listing, in order (see `ids_on_lines`).
pub fn leftover_module_ids(listing: &str, sink_name: &str, source_name: &str) -> (r: Vec<String>)
    ensures
        r.len() == ids_on_lines(text::lines_seq(listing@), sink_name@, source_name@).len(),
        forall|k: int|
            0 <= k < r.len() ==> (#[trigger] r@[k])@ == ids_on_lines(
                text::lines_seq(listing@),
                sink_name@,
                source_name@,
            )[k],
{
    let ls = text::lines(listing);
    let ghost all = text::lines_seq(listing@);
    let mut r: Vec<String> = Vec::new();
    let mut i: usize = 0;
    while i < ls.len()
        invariant
            0 <= i <= ls.len(),
            all == text::lines_seq(listing@),
            ls.len() == all.len(),
            forall|k: int| 0 <= k < ls.len() ==> (#[trigger] ls@[k])@ == all[k],
            r.len() == ids_on_lines(all.subrange(0, i as int), sink_name@, source_name@).len(),
            forall|k: int|
                0 <= k < r.len() ==> (#[trigger] r@[k])@ == ids_on_lines(
                    all.subrange(0, i as int),
                    sink_name@,
                    source_name@,
                )[k],
        decreases ls.len() - i,
    {
        proof {
            assert(all.subrange(0, i + 1).drop_last() =~= all.subrange(0, i as int));
        }
        let line = ls[i].as_str();
        if text::contains_str(line, sink_name) || text::contains_str(line, source_name)
            || text::contains_str(line, "Audiover") {
            let f = text::fields(line);
            if f.len() > 0 {
                r.push(f[0].clone());
            }
        }
        i += 1;
    }
    proof {
        assert(all.subrange(0, all.len() as int) =~= all);
    }
    r
}

/// Whether a WirePlumber state file's text mentions Audiover.
pub fn mentions_audiover(content: &str) -> (b: bool)
    ensures
        b == (text::contains_seq(content@, "audiover"@) || text::contains_seq(content@, "Audiover"@)),
{
    text::contains_str(content, "audiover") || text::contains_str(content, "Audiover")
}

/// A line of `stream-properties` that routes to Audiover.
pub open spec fn stale_stream_rule(line: Seq<char>) -> bool {
    text::contains_seq(line, "audiover"@) || text::contains_seq(line, "Audiover_Sink"@)
        || text::contains_seq(line, "Audiover_Mic"@)
}

/// A line of `default-nodes` that names Audiover.
pub open spec fn stale_default_node(line: Seq<char>) -> bool {
    text::contains_seq(line, "Audiover"@) || text::contains_seq(line, "audiover"@)
}

/// Lines joined with a newline after each (nothing for no lines).
pub open spec fn joined(lines: Seq<Seq<char>>) -> Seq<char>
    decreases lines.len(),
{
    if lines.len() == 0 {
        Seq::empty()
    } else {
        joined(lines.drop_last()) + lines.last() + seq!['\n']
    }
}

/// The lines of `content` (as `str::lines` gives them) that are not
/// stale, in order.
pub open spec fn kept_lines(content: Seq<char>, default_nodes: bool) -> Seq<Seq<char>> {
    text::lines_seq(content).filter(keeps(default_nodes))
}

/// Which lines scrubbing keeps: those that are not stale.
pub open spec fn keeps(default_nodes: bool) -> spec_fn(Seq<char>) -> bool {
    |l: Seq<char>|
        if default_nodes {
            !stale_default_node(l)
        } else {
            !stale_stream_rule(l)
        }
}

/// No line holds `p`, and `p` is not empty and has no newline: then the
/// lines joined do not hold `p` either.
proof fn lemma_joined_avoids(lines: Seq<Seq<char>>, p: Seq<char>)
    requires
        p.len() > 0,
        forall|k: int| 0 <= k < p.len() ==> p[k] != '\n',
        forall|k: int| 0 <= k < lines.len() ==> !text::contains_seq(#[trigger] lines[k], p),
    ensures
        !text::contains_seq(joined(lines), p),
    decreases lines.len(),
{
    if lines.len() > 0 {
        let rest = lines.drop_last();
        let last = lines.last();
        assert forall|k: int| 0 <= k < rest.len() implies !text::contains_seq(#[trigger] rest[k], p) by {
            assert(rest[k] == lines[k]);
        }
        assert(!text::contains_seq(lines[lines.len() - 1], p));
        lemma_joined_avoids(rest, p);
        let j0 = joined(rest);
        let j = joined(lines);
        let n = p.len() as int;
        assert(j == j0 + last + seq!['\n']);
        if text::contains_seq(j, p) {
            let i = choose|i: int| text::occurs_at(j, p, i);
            assert(text::occurs_at(j, p, i));
            if i + n <= j0.len() {
                assert(j0.subrange(i, i + n) =~= j.subrange(i, i + n));
                assert(text::occurs_at(j0, p, i));
            } else if i >= j0.len() && i + n <= j0.len() + last.len() {
                let i2 = i - j0.len();
                assert(last.subrange(i2, i2 + n) =~= j.subrange(i, i + n));
                assert(text::occurs_at(last, p, i2));
            } else if i + n > j0.len() + last.len() {
                let k = j0.len() + last.len() - i;
                assert(j[(j0.len() + last.len()) as int] == '\n');
                assert(p[k] == j.subrange(i, i + n)[k]);
            } else {
                assert(rest.len() > 0);
                assert(j0 == joined(rest.drop_last()) + rest.last() + seq!['\n']);
                assert(j0[j0.len() - 1] == '\n');
                let k = j0.len() - 1 - i;
                assert(j[j0.len() - 1] == j0[j0.len() - 1]);
                assert(p[k] == j.subrange(i, i + n)[k]);
            }
        }
    }
}

/// Scrubbing `stream-properties` keeps exactly the lines that mention none
/// of `audiover`, `Audiover_Sink` and `Audiover_Mic`, in order, so the
/// scrubbed text holds none of the three anywhere.
pub proof fn law_scrub_stream_rules(content: Seq<char>)
    ensures
        kept_lines(content, false) == text::lines_seq(content).filter(
            |l: Seq<char>|
                !text::contains_seq(l, "audiover"@) && !text::contains_seq(l, "Audiover_Sink"@)
                    && !text::contains_seq(l, "Audiover_Mic"@),
        ),
        !text::contains_seq(joined(kept_lines(content, false)), "Audiover_Mic"@),
        !text::contains_seq(joined(kept_lines(content, false)), "Audiover_Sink"@),
        !text::contains_seq(joined(kept_lines(content, false)), "audiover"@),
{
    let keep = keeps(false);
    let plain = |l: Seq<char>|
        !text::contains_seq(l, "audiover"@) && !text::contains_seq(l, "Audiover_Sink"@)
            && !text::contains_seq(l, "Audiover_Mic"@);
    assert(keep =~= plain);
    let kept = kept_lines(content, false);
    assert(kept == text::lines_seq(content).filter(plain));
    assert forall|k: int| 0 <= k < kept.len() implies plain(#[trigger] kept[k]) by {
        text::lines_seq(content).lemma_filter_pred(plain, k);
    }
    reveal_strlit("Audiover_Mic");
    reveal_strlit("Audiover_Sink");
    reveal_strlit("audiover");
    lemma_joined_avoids(kept, "Audiover_Mic"@);
    lemma_joined_avoids(kept, "Audiover_Sink"@);
    lemma_joined_avoids(kept, "audiover"@);
}

/// Scrubbing `default-nodes` keeps exactly the lines that mention neither
/// `Audiover` nor `audiover`, in order, so the scrubbed text holds neither
/// anywhere.
pub proof fn law_scrub_default_nodes(content: Seq<char>)
    ensures
        kept_lines(content, true) == text::lines_seq(content).filter(
            |l: Seq<char>| !text::contains_seq(l, "Audiover"@) && !text::contains_seq(l, "audiover"@),
        ),
        !text::contains_seq(joined(kept_lines(content, true)), "Audiover"@),
        !text::contains_seq(joined(kept_lines(content, true)), "audiover"@),
{
    let keep = keeps(true);
    let plain = |l: Seq<char>| !text::contains_seq(l, "Audiover"@) && !text::contains_seq(l, "audiover"@);
    assert(keep =~= plain);
    let kept = kept_lines(content, true);
    assert(kept == text::lines_seq(content).filter(plain));
    assert forall|k: int| 0 <= k < kept.len() implies plain(#[trigger] kept[k]) by {
        text::lines_seq(content).lemma_filter_pred(plain, k);
    }
    reveal_strlit("Audiover");
    reveal_strlit("audiover");
    lemma_joined_avoids(kept, "Audiover"@);
    lemma_joined_avoids(kept, "audiover"@);
}

/// A WirePlumber state file without its Audiover lines: `stream-properties`
/// loses the lines that route to Audiover, `default-nodes` (with
/// `default_nodes`) the lines that name it; the rest is kept, each line
/// ended by a newline.
pub fn scrub_state_file(content: &str, default_nodes: bool) -> (r: String)
    ensures
        r@ == joined(kept_lines(content@, default_nodes)),
        !default_nodes ==> !text::contains_seq(r@, "Audiover_Mic"@) && !text::contains_seq(r@, "Audiover_Sink"@)
            && !text::contains_seq(r@, "audiover"@),
        default_nodes ==> !text::contains_seq(r@, "Audiover"@) && !text::contains_seq(r@, "audiover"@),
{
    proof {
        law_scrub_stream_rules(content@);
        law_scrub_default_nodes(content@);
    }
    let ls = text::lines(content);
    let ghost all = text::lines_seq(content@);
    let ghost keep = keeps(default_nodes);
    let mut r = String::new();
    let mut i: usize = 0;
    while i < ls.len()
        invariant
            0 <= i <= ls.len(),
            all == text::lines_seq(content@),
            ls.len() == all.len(),
            forall|k: int| 0 <= k < ls.len() ==> (#[trigger] ls@[k])@ == all[k],
            keep == keeps(default_nodes),
            r@ == joined(all.subrange(0, i as int).filter(keep)),
        decreases ls.len() - i,
    {
        let line = ls[i].as_str();
        let stale = if default_nodes {
            text::contains_str(line, "Audiover") || text::contains_str(line, "audiover")
        } else {
            text::contains_str(line, "audiover") || text::contains_str(line, "Audiover_Sink")
                || text::contains_str(line, "Audiover_Mic")
        };
        proof {
            let pre = all.subrange(0, i as int);
            assert(all.subrange(0, i + 1) =~= pre.push(all[i as int]));
            reveal_with_fuel(Seq::filter, 1);
            assert(pre.push(all[i as int]).drop_last() =~= pre);
        }
        if !stale {
            r.append(line);
            r.append("\n");
            proof {
                reveal_strlit("\n");
                let pre = all.subrange(0, i as int);
                let f = pre.filter(keep);
                assert(f.push(all[i as int]).drop_last() =~= f);
            }
        }
        i += 1;
    }
    proof {
        assert(all.subrange(0, all.len() as int) =~= all);
    }
    r
}

/// The current default endpoint was taken over by Audiover: it is
/// Audiover's own endpoint or its name mentions `audiover` in any case.
pub open spec fn hijacked(current: Option<Seq<char>>, own_name: Seq<char>) -> bool {
    match current {
        Some(c) => c == own_name || text::contains_seq(text::lowercase(c), "audiover"@),
        None => false,
    }
}

/// Whether the current default endpoint was taken over by Audiover: it is
/// Audiover's own endpoint or its name mentions `audiover` in any case.
pub fn default_hijacked(current: Option<&str>, own_name: &str) -> (b: bool)
    ensures
        b == hijacked(devices::opt_seq(current), own_name@),
{
    match current {
        Some(c) => text::same_text(c, own_name) || text::contains_str(text::to_lower(c).as_str(), "audiover"),
        None => false,
    }
}

/// The `sink_properties` text of Audiover's null sink.
pub open spec fn sink_props_seq(desc: Seq<char>) -> Seq<char> {
    "device.description=\""@ + desc
        + "\" device.class=\"abstract\" node.passive=true priority.driver=0 priority.session=0"@
}

/// The `source_properties` text of Audiover's virtual microphone.
pub open spec fn source_props_seq(desc: Seq<char>) -> Seq<char> {
    "device.description=\""@ + desc + "\" device.class=\"abstract\" priority.driver=1 priority.session=1"@
}

/// The `sink_properties` of Audiover's null sink: described as `desc`,
/// abstract, passive and never elected as default.
pub fn sink_properties(desc: &str) -> (r: String)
    ensures
        r@ == sink_props_seq(desc@),
{
    let mut r = "device.description=\"".to_string();
    r.append(desc);
    r.append("\" device.class=\"abstract\" node.passive=true priority.driver=0 priority.session=0");
    r
}

/// The `source_properties` of Audiover's virtual microphone: described as
/// `desc`, abstract and ranked below physical microphones.
pub fn source_properties(desc: &str) -> (r: String)
    ensures
        r@ == source_props_seq(desc@),
{
    let mut r = "device.description=\"".to_string();
    r.append(desc);
    r.append("\" device.class=\"abstract\" priority.driver=1 priority.session=1");
    r
}

/// `key=value`, as a module argument.
pub fn module_arg(key: &str, value: &str) -> (r: String)
    ensures
        r@ == key@ + "="@ + value@,
{
    let mut r = key.to_string();
    r.append("=");
    r.append(value);
    r
}

/// The arguments `pacat` is run with to play the virtual microphone's
/// stream into the sink `sink_name`: raw 32-bit float stereo at
/// `sample_rate`, with a 10 ms latency.
pub open spec fn pacat_args_seq(sink_name: Seq<char>, sample_rate: u32) -> Seq<Seq<char>> {
    seq![
        "--playback"@,
        "-d"@,
        sink_name,
        "--format=float32le"@,
        "--rate="@ + text::decimal_seq(sample_rate as nat),
        "--channels=2"@,
        "--latency-msec=10"@,
        "--raw"@,
        "--stream-name=Audiover_Virtual_Mic"@,
    ]
}

/// The arguments of `pacat` (see `pacat_args_seq`).
pub fn pacat_args(sink_name: &str, sample_rate: u32) -> (r: Vec<String>)
    ensures
        r.len() == 9,
        forall|i: int| 0 <= i < 9 ==> (#[trigger] r@[i])@ == pacat_args_seq(sink_name@, sample_rate)[i],
{
    let mut v: Vec<String> = Vec::new();
    v.push("--playback".to_string());
    v.push("-d".to_string());
    v.push(sink_name.to_string());
    v.push("--format=float32le".to_string());
    let mut rate = "--rate=".to_string();
    let digits = text::decimal(sample_rate as u64);
    rate.append(digits.as_str());
    v.push(rate);
    v.push("--channels=2".to_string());
    v.push("--latency-msec=10".to_string());
    v.push("--raw".to_string());
    v.push("--stream-name=Audiover_Virtual_Mic".to_string());
    v
}

/// Frames the `pacat` writer hands over at most at a time: the block size,
/// at least 64.
pub fn pacat_chunk_frames(block_size: usize) -> (r: usize)
    ensures
        r == (if block_size < 64 {
            64
        } else {
            block_size
        }),
{
    if block_size < 64 {
        64
    } else {
        block_size
    }
}

} // verus!
