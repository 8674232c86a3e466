//! Text order (the order of `str`, by code point) and what is built on it:
//! sorted header listings for logs and the latest refresh time.
use vstd::prelude::*;
use vstd::relations::{sorted_by, total_ordering};
use vstd::seq_lib::group_to_multiset_ensures;
use crate::fetch::sensitive_headers;
use crate::text::{chars_of, lower, lower_chars, string_from_str, string_of};
use crate::uri::{concat, strings_view};

verus! {

/// `a` comes before `b` or equals it, comparing characters by code point
/// (which is how `str` compares its UTF-8 bytes).
pub open spec fn text_le(a: Seq<char>, b: Seq<char>) -> bool
    decreases a.len(),
{
    if a.len() == 0 {
        true
    } else if b.len() == 0 {
        false
    } else if (a[0] as u32) < (b[0] as u32) {
        true
    } else if a[0] == b[0] {
        text_le(a.drop_first(), b.drop_first())
    } else {
        false
    }
}

pub open spec fn text_leq() -> spec_fn(Seq<char>, Seq<char>) -> bool {
    |a: Seq<char>, b: Seq<char>| text_le(a, b)
}

proof fn lemma_char_order(x: char, y: char)
    ensures
        (x as u32) == (y as u32) ==> x == y,
{
    vstd::utf8::char_u32_cast(x, x as u32);
    vstd::utf8::char_u32_cast(y, y as u32);
}

proof fn lemma_text_le_antisymmetric(a: Seq<char>, b: Seq<char>)
    requires
        text_le(a, b),
        text_le(b, a),
    ensures
        a == b,
    decreases a.len(),
{
    if a.len() > 0 && b.len() > 0 {
        lemma_char_order(a[0], b[0]);
        lemma_text_le_antisymmetric(a.drop_first(), b.drop_first());
        assert(a =~= seq![a[0]] + a.drop_first());
        assert(b =~= seq![b[0]] + b.drop_first());
    } else {
        assert(a.len() == 0 && b.len() == 0);
        assert(a =~= b);
    }
}

proof fn lemma_text_le_transitive(a: Seq<char>, b: Seq<char>, c: Seq<char>)
    requires
        text_le(a, b),
        text_le(b, c),
    ensures
        text_le(a, c),
    decreases a.len(),
{
    if a.len() > 0 && b.len() > 0 && c.len() > 0 {
        if a[0] == b[0] && b[0] == c[0] {
            lemma_text_le_transitive(a.drop_first(), b.drop_first(), c.drop_first());
        }
    }
}

proof fn lemma_text_le_total(a: Seq<char>, b: Seq<char>)
    ensures
        text_le(a, b) || text_le(b, a),
    decreases a.len(),
{
    if a.len() > 0 && b.len() > 0 {
        lemma_char_order(a[0], b[0]);
        if a[0] == b[0] {
            lemma_text_le_total(a.drop_first(), b.drop_first());
        }
    }
}

proof fn lemma_text_le_reflexive(a: Seq<char>)
    ensures
        text_le(a, a),
    decreases a.len(),
{
    if a.len() > 0 {
        lemma_text_le_reflexive(a.drop_first());
    }
}

/// Text order is a total order.
pub proof fn lemma_text_order_total()
    ensures
        total_ordering(text_leq()),
{
    assert forall|x: Seq<char>| #[trigger] text_leq()(x, x) by {
        lemma_text_le_reflexive(x);
    }
    assert forall|x: Seq<char>, y: Seq<char>| #[trigger] text_leq()(x, y) && #[trigger] text_leq()(y, x) implies x == y by {
        lemma_text_le_antisymmetric(x, y);
    }
    assert forall|x: Seq<char>, y: Seq<char>, z: Seq<char>| #[trigger] text_leq()(x, y) && #[trigger] text_leq()(y, z) implies text_leq()(
        x,
        z,
    ) by {
        lemma_text_le_transitive(x, y, z);
    }
    assert forall|x: Seq<char>, y: Seq<char>| #[trigger] text_leq()(x, y) || #[trigger] text_leq()(y, x) by {
        lemma_text_le_total(x, y);
    }
}

/// Compares two texts in text order.
pub fn text_le_exec(a: &[char], b: &[char]) -> (r: bool)
    ensures
        r == text_le(a@, b@),
{
    let mut i: usize = 0;
    assert(a@.skip(0) =~= a@);
    assert(b@.skip(0) =~= b@);
    while i < a.len() && i < b.len()
        invariant
            i <= a@.len(),
            i <= b@.len(),
            forall|k: int| 0 <= k < i ==> a@[k] == b@[k],
            text_le(a@, b@) == text_le(a@.skip(i as int), b@.skip(i as int)),
        decreases a.len() - i,
    {
        proof {
            assert(a@.skip(i as int)[0] == a@[i as int]);
            assert(b@.skip(i as int)[0] == b@[i as int]);
            assert(a@.skip(i as int).drop_first() =~= a@.skip(i + 1));
            assert(b@.skip(i as int).drop_first() =~= b@.skip(i + 1));
        }
        if (a[i] as u32) < (b[i] as u32) {
            return true;
        }
        if a[i] != b[i] {
            return false;
        }
        i = i + 1;
    }
    proof {
        assert(a@.skip(i as int).len() == a@.len() - i);
    }
    i == a.len()
}

pub fn text_le_str(a: &str, b: &str) -> (r: bool)
    ensures
        r == text_le(a@, b@),
{
    let ac = chars_of(a);
    let bc = chars_of(b);
    text_le_exec(ac.as_slice(), bc.as_slice())
}

/// Sorts texts into text order.
pub fn sort_texts(items: Vec<String>) -> (r: Vec<String>)
    ensures
        sorted_by(strings_view(r@), text_leq()),
        strings_view(r@).to_multiset() == strings_view(items@).to_multiset(),
        strings_view(r@) == strings_view(items@).sort_by(text_leq()),
{
    broadcast use group_to_multiset_ensures;
    proof {
        lemma_text_order_total();
    }
    let ghost input = strings_view(items@);
    let mut out: Vec<String> = Vec::new();
    let mut i: usize = 0;
    while i < items.len()
        invariant
            i <= items@.len(),
            input == strings_view(items@),
            total_ordering(text_leq()),
            sorted_by(strings_view(out@), text_leq()),
            strings_view(out@).to_multiset() == input.take(i as int).to_multiset(),
        decreases items.len() - i,
    {
        let x = items[i].clone();
        let ghost ov = strings_view(out@);
        let mut j: usize = 0;
        while j < out.len() && text_le_str(out[j].as_str(), x.as_str())
            invariant
                j <= out@.len(),
                ov == strings_view(out@),
                forall|k: int| 0 <= k < j ==> text_le(#[trigger] ov[k], x@),
            decreases out.len() - j,
        {
            j = j + 1;
        }
        let ghost before = strings_view(out@);
        out.insert(j, x);
        proof {
            let now = strings_view(out@);
            assert(now =~= before.insert(j as int, x@));
            assert forall|a: int, b: int| 0 <= a < b < now.len() implies #[trigger] text_leq()(now[a], now[b]) by {
                if b < j {
                    assert(now[a] == before[a] && now[b] == before[b]);
                } else if b == j {
                    assert(now[a] == before[a]);
                } else if a == j {
                    assert(now[b] == before[b - 1]);
                    assert(!text_le(before[j as int], x@));
                    lemma_text_le_total(before[j as int], x@);
                    if b - 1 > j {
                        assert(text_leq()(before[j as int], before[b - 1]));
                        lemma_text_le_transitive(x@, before[j as int], before[b - 1]);
                    }
                } else if a < j {
                    assert(now[a] == before[a]);
                    assert(now[b] == before[b - 1]);
                } else {
                    assert(now[a] == before[a - 1]);
                    assert(now[b] == before[b - 1]);
                }
            }
            assert(now.remove(j as int) =~= before);
            assert(input[i as int] == x@);
            assert(input.take(i + 1) =~= input.take(i as int).push(x@));
            input.take(i as int).to_multiset_ensures();
            assert(input.take(i + 1).to_multiset() =~= input.take(i as int).to_multiset().insert(x@));
            assert(now.to_multiset() =~= before.to_multiset().insert(x@)) by {
                assert(now[j as int] == x@);
                now.to_multiset_ensures();
                assert(now.contains(x@));
                assert(now.remove(j as int).to_multiset() =~= now.to_multiset().remove(now[j as int]));
                assert(now.to_multiset().contains(x@));
            }
        }
        i = i + 1;
    }
    proof {
        assert(input.take(input.len() as int) =~= input);
        input.lemma_sort_by_ensures(text_leq());
        vstd::seq_lib::lemma_sorted_unique(strings_view(out@), input.sort_by(text_leq()), text_leq());
    }
    out
}

// ---------------------------------------------------------------------------
// Header listings for logs
// ---------------------------------------------------------------------------

/// `parts` joined by `sep`.
pub open spec fn join_texts(parts: Seq<Seq<char>>, sep: Seq<char>) -> Seq<char>
    decreases parts.len(),
{
    if parts.len() == 0 {
        Seq::empty()
    } else if parts.len() == 1 {
        parts[0]
    } else {
        join_texts(parts.drop_last(), sep) + sep + parts.last()
    }
}

/// `name=value` with the name lower-cased and a secret value masked; a value
/// that is not visible ASCII is shown as `<non-utf8>`.
pub open spec fn header_line(name: Seq<char>, value: Option<Seq<char>>) -> Seq<char> {
    let key = lower(name);
    key + "="@ + if sensitive_headers().contains(key) {
        "***"@
    } else {
        match value {
            Some(v) => v,
            None => "<non-utf8>"@,
        }
    }
}

pub open spec fn header_lines(headers: Seq<(String, Option<String>)>) -> Seq<Seq<char>> {
    headers.map_values(
        |h: (String, Option<String>)|
            header_line(
                h.0@,
                match h.1 {
                    Some(v) => Some(v@),
                    None => None,
                },
            ),
    )
}

/// The request headers as logged: sorted `name=value` lines in brackets.
pub open spec fn spec_redacted_headers(headers: Seq<(String, Option<String>)>) -> Seq<char> {
    "["@ + join_texts(header_lines(headers).sort_by(text_leq()), ", "@) + "]"@
}

fn join_exec(parts: &Vec<String>, sep: &str) -> (r: String)
    ensures
        r@ == join_texts(strings_view(parts@), sep@),
{
    let ghost pv = strings_view(parts@);
    let mut out = String::new();
    let mut i: usize = 0;
    while i < parts.len()
        invariant
            i <= parts@.len(),
            pv == strings_view(parts@),
            out@ == join_texts(pv.take(i as int), sep@),
        decreases parts.len() - i,
    {
        proof {
            assert(pv.take(i + 1).drop_last() =~= pv.take(i as int));
        }
        if i == 0 {
            out = parts[0].clone();
            assert(pv.take(1).len() == 1);
        } else {
            let with_sep = concat(out.as_str(), sep);
            out = concat(with_sep.as_str(), parts[i].as_str());
        }
        i = i + 1;
    }
    assert(pv.take(pv.len() as int) =~= pv);
    out
}

/// Lists request headers for a log line, masking secrets (see `spec_redacted_headers`).
pub fn redact_headers_for_log(headers: &Vec<(String, Option<String>)>) -> (r: String)
    ensures
        r@ == spec_redacted_headers(headers@),
{
    let ghost lines_view = header_lines(headers@);
    let mut lines: Vec<String> = Vec::new();
    let mut i: usize = 0;
    while i < headers.len()
        invariant
            i <= headers@.len(),
            lines_view == header_lines(headers@),
            strings_view(lines@) == lines_view.take(i as int),
        decreases headers.len() - i,
    {
        let nc = chars_of(headers[i].0.as_str());
        let lc = lower_chars(nc.as_slice());
        let key = string_of(lc.as_slice());
        let value: String = if crate::fetch::is_sensitive_header(key.as_str()) {
            string_from_str("***")
        } else {
            match &headers[i].1 {
                Some(v) => v.clone(),
                None => string_from_str("<non-utf8>"),
            }
        };
        proof {
            crate::text::lemma_lower_idempotent(headers@[i as int].0@);
        }
        let head = concat(key.as_str(), "=");
        let line = concat(head.as_str(), value.as_str());
        let ghost before = lines@;
        lines.push(line);
        proof {
            assert(strings_view(lines@) =~= strings_view(before).push(lines@.last()@));
            assert(lines_view.take(i + 1) =~= lines_view.take(i as int).push(lines_view[i as int]));
        }
        i = i + 1;
    }
    assert(lines_view.take(lines_view.len() as int) =~= lines_view);
    let sorted = sort_texts(lines);
    let joined = join_exec(&sorted, ", ");
    let head = concat("[", joined.as_str());
    concat(head.as_str(), "]")
}

// ---------------------------------------------------------------------------
// Latest refresh
// ---------------------------------------------------------------------------

/// The latest of some timestamps in text order (RFC 3339 texts of one offset
/// sort by time).
pub open spec fn latest_of(times: Seq<Seq<char>>) -> Option<Seq<char>>
    decreases times.len(),
{
    if times.len() == 0 {
        None
    } else {
        match latest_of(times.drop_last()) {
            Some(c) => if text_le(times.last(), c) {
                Some(c)
            } else {
                Some(times.last())
            },
            None => Some(times.last()),
        }
    }
}

/// The latest finish time among refresh jobs.
pub fn latest_refresh_at(finished: &Vec<String>) -> (r: Option<String>)
    ensures
        match r {
            Some(m) => latest_of(strings_view(finished@)) == Some(m@),
            None => latest_of(strings_view(finished@)) is None,
        },
{
    let ghost fv = strings_view(finished@);
    let mut latest: Option<String> = None;
    let mut i: usize = 0;
    while i < finished.len()
        invariant
            i <= finished@.len(),
            fv == strings_view(finished@),
            match latest {
                Some(m) => latest_of(fv.take(i as int)) == Some(m@),
                None => latest_of(fv.take(i as int)) is None,
            },
        decreases finished.len() - i,
    {
        proof {
            assert(fv.take(i + 1).drop_last() =~= fv.take(i as int));
            assert(fv.take(i + 1).last() == finished@[i as int]@);
        }
        let candidate = finished[i].clone();
        let cc = chars_of(candidate.as_str());
        let replace = match &latest {
            Some(current) => {
                let ccur = chars_of(current.as_str());
                !text_le_exec(cc.as_slice(), ccur.as_slice())
            },
            None => true,
        };
        if replace {
            latest = Some(candidate);
        }
        i = i + 1;
    }
    assert(fv.take(fv.len() as int) =~= fv);
    latest
}

/// The latest time is one of the times and no time comes after it.
pub proof fn lemma_latest_is_maximum(times: Seq<Seq<char>>)
    ensures
        latest_of(times) is None <==> times.len() == 0,
        latest_of(times) matches Some(m) ==> times.contains(m) && forall|i: int|
            0 <= i < times.len() ==> text_le(#[trigger] times[i], m),
    decreases times.len(),
{
    if times.len() > 0 {
        let d = times.drop_last();
        lemma_latest_is_maximum(d);
        let m = latest_of(times).unwrap();
        match latest_of(d) {
            Some(c) => {
                if text_le(times.last(), c) {
                    let k = choose|k: int| 0 <= k < d.len() && d[k] == c;
                    assert(times[k] == c);
                    assert forall|i: int| 0 <= i < times.len() implies text_le(#[trigger] times[i], m) by {
                        if i < d.len() {
                            assert(times[i] == d[i]);
                        }
                    }
                } else {
                    assert(times[times.len() - 1] == m);
                    lemma_text_le_total(times.last(), c);
                    assert forall|i: int| 0 <= i < times.len() implies text_le(#[trigger] times[i], m) by {
                        if i < d.len() {
                            assert(times[i] == d[i]);
                            lemma_text_le_transitive(d[i], c, m);
                        } else {
                            lemma_text_le_reflexive(m);
                        }
                    }
                }
            },
            None => {
                assert(times[times.len() - 1] == m);
                lemma_text_le_reflexive(m);
            },
        }
    }
}

} // verus!
