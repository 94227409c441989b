//! Top-level tag validation of generated text.
//!
//! The scanner walks the text once. A tag opened while no tag is open is a
//! top-level tag; it must be closed by a matching closing tag. What happens
//! inside a top-level tag is tolerated as long as the top-level structure
//! holds ("lenient nesting"): a top-level tag is closed by its own closing
//! tag at any depth. An inner tag left open at that point must not be closed
//! afterwards: its closing tag is a mismatch against the top-level tag it was
//! left in.

use vstd::prelude::*;
use crate::text::{is_ws, is_whitespace, chars_of, string_of, push_char};

verus! {

/// Index of the first character at or after `k` that ends a tag name:
/// `>`, `/`, whitespace, or the end of the text.
pub open spec fn name_end(s: Seq<char>, k: int) -> int
    decreases s.len() - k,
{
    if k >= s.len() || s[k] == '>' || s[k] == '/' || is_ws(s[k]) {
        k
    } else {
        name_end(s, k + 1)
    }
}

/// Index of the first `>` at or after `k`, or the end of the text.
pub open spec fn gt_end(s: Seq<char>, k: int) -> int
    decreases s.len() - k,
{
    if k >= s.len() || s[k] == '>' {
        k
    } else {
        gt_end(s, k + 1)
    }
}

/// A `/` stands somewhere in `s[a..b]`.
pub open spec fn slash_in(s: Seq<char>, a: int, b: int) -> bool {
    exists|p: int| a <= p < b && s[p] == '/'
}

pub proof fn lemma_name_end(s: Seq<char>, k: int)
    requires
        0 <= k,
    ensures
        k <= name_end(s, k),
        k <= s.len() ==> name_end(s, k) <= s.len(),
    decreases s.len() - k,
{
    if !(k >= s.len() || s[k] == '>' || s[k] == '/' || is_ws(s[k])) {
        lemma_name_end(s, k + 1);
    }
}

pub proof fn lemma_gt_end(s: Seq<char>, k: int)
    requires
        0 <= k,
    ensures
        k <= gt_end(s, k),
        k <= s.len() ==> gt_end(s, k) <= s.len(),
        gt_end(s, k) < s.len() ==> s[gt_end(s, k)] == '>',
        forall|p: int| k <= p < gt_end(s, k) ==> s[p] != '>',
    decreases s.len() - k,
{
    if !(k >= s.len() || s[k] == '>') {
        lemma_gt_end(s, k + 1);
    }
}

/// What the scanner knows after a prefix of the text: how deep it is, the
/// top-level tags still open, the top-level tags met so far (in order), the
/// tags opened inside the open top-level tag and not yet closed, and the
/// inner tags that were left open when their top-level tag closed, each with
/// the name of that top-level tag.
pub struct TagScan {
    pub depth: nat,
    pub open: Seq<Seq<char>>,
    pub tops: Seq<Seq<char>>,
    pub inner: Seq<Seq<char>>,
    pub orphans: Seq<(Seq<char>, Seq<char>)>,
}

/// Index of the last `name` in `names`, or -1.
pub open spec fn last_index(names: Seq<Seq<char>>, name: Seq<char>) -> int
    decreases names.len(),
{
    if names.len() == 0 {
        -1
    } else if names.last() == name {
        names.len() - 1
    } else {
        last_index(names.drop_last(), name)
    }
}

/// The top-level tag that the last inner tag called `name` was left open in.
pub open spec fn orphan_owner(orphans: Seq<(Seq<char>, Seq<char>)>, name: Seq<char>) -> Option<Seq<char>>
    decreases orphans.len(),
{
    if orphans.len() == 0 {
        None
    } else if orphans.last().0 == name {
        Some(orphans.last().1)
    } else {
        orphan_owner(orphans.drop_last(), name)
    }
}

/// Each of `names` paired with `owner`.
pub open spec fn owned_by(names: Seq<Seq<char>>, owner: Seq<char>) -> Seq<(Seq<char>, Seq<char>)> {
    names.map_values(|n: Seq<char>| (n, owner))
}

pub proof fn lemma_last_index(names: Seq<Seq<char>>, name: Seq<char>)
    ensures
        -1 <= last_index(names, name) < names.len(),
        last_index(names, name) >= 0 ==> names[last_index(names, name)] == name,
    decreases names.len(),
{
    if names.len() > 0 && names.last() != name {
        lemma_last_index(names.drop_last(), name);
    }
}

pub open spec fn mismatch_message(expected: Seq<char>, found: Seq<char>) -> Seq<char> {
    "Top-level tag mismatch: expected '</"@ + expected + ">' but found '</"@ + found + ">'"@
}

/// The names joined with `", "` between them.
pub open spec fn join_names(names: Seq<Seq<char>>) -> Seq<char>
    decreases names.len(),
{
    if names.len() == 0 {
        Seq::empty()
    } else if names.len() == 1 {
        names[0]
    } else {
        join_names(names.drop_last()) + ", "@ + names.last()
    }
}

pub open spec fn unclosed_message(open: Seq<Seq<char>>) -> Seq<char> {
    "Unclosed top-level tags: "@ + join_names(open)
}

/// The effect of one tag on the scan.
pub open spec fn tag_step(st: TagScan, closing: bool, name: Seq<char>, self_closing: bool)
    -> Result<TagScan, Seq<char>>
{
    if name.len() > 0 && (name[0] == '!' || name[0] == '?') {
        Ok(st)
    } else if self_closing {
        if st.depth == 0 {
            Ok(TagScan { tops: st.tops.push(name), ..st })
        } else {
            Ok(st)
        }
    } else if closing {
        let depth = (if st.depth > 0 { st.depth - 1 } else { 0 }) as nat;
        if st.open.len() > 0 && st.open.last() == name {
            Ok(TagScan {
                depth: 0,
                open: st.open.drop_last(),
                inner: Seq::empty(),
                orphans: st.orphans + owned_by(st.inner, name),
                ..st
            })
        } else if st.open.len() > 0 && st.depth == 1 {
            Err(mismatch_message(st.open.last(), name))
        } else if last_index(st.inner, name) >= 0 {
            Ok(TagScan { depth, inner: st.inner.remove(last_index(st.inner, name)), ..st })
        } else {
            match orphan_owner(st.orphans, name) {
                Some(owner) => Err(mismatch_message(owner, name)),
                None => Ok(TagScan { depth, ..st }),
            }
        }
    } else if st.depth == 0 {
        Ok(TagScan { depth: 1, open: st.open.push(name), tops: st.tops.push(name), ..st })
    } else {
        Ok(TagScan { depth: st.depth + 1, inner: st.inner.push(name), ..st })
    }
}

/// The scan of `s` from index `i` on, starting in state `st`.
pub open spec fn scan_from(s: Seq<char>, i: int, st: TagScan) -> Result<TagScan, Seq<char>>
    decreases s.len() - i,
    when 0 <= i
{
    if i >= s.len() {
        Ok(st)
    } else if s[i] != '<' {
        scan_from(s, i + 1, st)
    } else if i + 1 >= s.len() {
        Ok(st)
    } else {
        let closing = s[i + 1] == '/';
        let j = if closing { i + 2 } else { i + 1 };
        let k = name_end(s, j);
        let m = gt_end(s, k);
        proof {
            lemma_name_end(s, j);
            lemma_gt_end(s, k);
        }
        match tag_step(st, closing, s.subrange(j, k), slash_in(s, k, m)) {
            Ok(next) => scan_from(s, if m < s.len() { m + 1 } else { m }, next),
            Err(e) => Err(e),
        }
    }
}

pub open spec fn initial_scan() -> TagScan {
    TagScan { depth: 0, open: Seq::empty(), tops: Seq::empty(), inner: Seq::empty(), orphans: Seq::empty() }
}

/// The top-level tags of `s`, in order of appearance, or the structural error.
pub open spec fn top_level_tags(s: Seq<char>) -> Result<Seq<Seq<char>>, Seq<char>> {
    match scan_from(s, 0, initial_scan()) {
        Ok(st) => if st.open.len() > 0 {
            Err(unclosed_message(st.open))
        } else {
            Ok(st.tops)
        },
        Err(e) => Err(e),
    }
}

pub open spec fn views(v: Seq<String>) -> Seq<Seq<char>> {
    v.map_values(|t: String| t@)
}


pub open spec fn pair_views(v: Seq<(String, String)>) -> Seq<(Seq<char>, Seq<char>)> {
    v.map_values(|p: (String, String)| (p.0@, p.1@))
}

pub open spec fn scan_state(
    depth: usize,
    open: Seq<String>,
    tops: Seq<String>,
    inner: Seq<String>,
    orphans: Seq<(String, String)>,
) -> TagScan {
    TagScan {
        depth: depth as nat,
        open: views(open),
        tops: views(tops),
        inner: views(inner),
        orphans: pair_views(orphans),
    }
}

fn find_last(names: &Vec<String>, name: &String) -> (r: Option<usize>)
    ensures
        r is Some <==> last_index(views(names@), name@) >= 0,
        r is Some ==> r->Some_0 as int == last_index(views(names@), name@),
{
    let mut i: usize = names.len();
    assert(names@.subrange(0, i as int) =~= names@);
    while i > 0
        invariant
            i <= names@.len(),
            last_index(views(names@), name@) == last_index(views(names@.subrange(0, i as int)), name@),
        decreases i,
    {
        let ghost pre = views(names@.subrange(0, i as int));
        assert(pre.drop_last() =~= views(names@.subrange(0, i - 1)));
        assert(pre.last() == names@[i - 1]@);
        if names[i - 1] == *name {
            return Some(i - 1);
        }
        i -= 1;
    }
    None
}

fn find_owner(orphans: &Vec<(String, String)>, name: &String) -> (r: Option<String>)
    ensures
        match orphan_owner(pair_views(orphans@), name@) {
            Some(o) => r is Some && r->Some_0@ == o,
            None => r is None,
        },
{
    let mut i: usize = orphans.len();
    assert(orphans@.subrange(0, i as int) =~= orphans@);
    while i > 0
        invariant
            i <= orphans@.len(),
            orphan_owner(pair_views(orphans@), name@) == orphan_owner(pair_views(orphans@.subrange(0, i as int)), name@),
        decreases i,
    {
        let ghost pre = pair_views(orphans@.subrange(0, i as int));
        assert(pre.drop_last() =~= pair_views(orphans@.subrange(0, i - 1)));
        assert(pre.last() == (orphans@[i - 1].0@, orphans@[i - 1].1@));
        if orphans[i - 1].0 == *name {
            return Some(orphans[i - 1].1.clone());
        }
        i -= 1;
    }
    None
}

/// Appends each of `inner` to `orphans`, owned by `owner`.
fn adopt(orphans: &mut Vec<(String, String)>, inner: &Vec<String>, owner: &String)
    ensures
        pair_views(final(orphans)@) == pair_views(old(orphans)@) + owned_by(views(inner@), owner@),
{
    let mut k: usize = 0;
    while k < inner.len()
        invariant
            k <= inner@.len(),
            pair_views(orphans@) == pair_views(old(orphans)@) + owned_by(views(inner@.subrange(0, k as int)), owner@),
        decreases inner.len() - k,
    {
        let ghost before = orphans@;
        orphans.push((inner[k].clone(), owner.clone()));
        assert(pair_views(orphans@) =~= pair_views(before).push((inner@[k as int]@, owner@)));
        assert(owned_by(views(inner@.subrange(0, k + 1)), owner@)
            =~= owned_by(views(inner@.subrange(0, k as int)), owner@).push((inner@[k as int]@, owner@)));
        k += 1;
    }
    assert(inner@.subrange(0, k as int) =~= inner@);
}

fn mismatch_error(expected: &String, found: &String) -> (r: String)
    ensures
        r@ == mismatch_message(expected@, found@),
{
    let mut r = String::from_str("Top-level tag mismatch: expected '</");
    r.append(expected.as_str());
    r.append(">' but found '</");
    r.append(found.as_str());
    r.append(">'");
    r
}

fn unclosed_error(open: &Vec<String>) -> (r: String)
    ensures
        r@ == unclosed_message(views(open@)),
{
    let mut joined = String::new();
    let mut i: usize = 0;
    while i < open.len()
        invariant
            i <= open@.len(),
            joined@ == join_names(views(open@.subrange(0, i as int))),
        decreases open.len() - i,
    {
        assert(views(open@.subrange(0, i + 1)).drop_last() =~= views(open@.subrange(0, i as int)));
        if i > 0 {
            joined.append(", ");
        }
        joined.append(open[i].as_str());
        i += 1;
    }
    assert(open@.subrange(0, open@.len() as int) =~= open@);
    let mut r = String::from_str("Unclosed top-level tags: ");
    r.append(joined.as_str());
    r
}

/// Lists the tags that stand at the top level of `content`, in order of
/// appearance. Fails when a top-level tag is closed by another name while it
/// is the only open tag, when an inner tag left open in a closed top-level
/// tag is closed later, or when a top-level tag is never closed.
pub fn extract_top_level_tags(content: &str) -> (r: Result<Vec<String>, String>)
    ensures
        match top_level_tags(content@) {
            Ok(t) => r is Ok && views(r->Ok_0@) == t,
            Err(e) => r is Err && r->Err_0@ == e,
        },
{
    let chars = chars_of(content);
    let ghost s = content@;
    let n = chars.len();
    let mut tops: Vec<String> = Vec::new();
    let mut open: Vec<String> = Vec::new();
    let mut inner: Vec<String> = Vec::new();
    let mut orphans: Vec<(String, String)> = Vec::new();
    let mut i: usize = 0;
    let mut depth: usize = 0;
    assert(scan_state(depth, open@, tops@, inner@, orphans@) == initial_scan()) by {
        assert(views(open@) =~= Seq::<Seq<char>>::empty());
        assert(views(tops@) =~= Seq::<Seq<char>>::empty());
        assert(views(inner@) =~= Seq::<Seq<char>>::empty());
        assert(pair_views(orphans@) =~= Seq::<(Seq<char>, Seq<char>)>::empty());
    }
    while i < n
        invariant
            chars@ == s,
            s == content@,
            n == s.len(),
            i <= n,
            depth <= i,
            scan_from(s, i as int, scan_state(depth, open@, tops@, inner@, orphans@)) == scan_from(s, 0, initial_scan()),
        decreases n - i,
    {
        let ghost st = scan_state(depth, open@, tops@, inner@, orphans@);
        let ghost i0 = i as int;
        if chars[i] != '<' {
            i += 1;
        } else if i + 1 >= n {
            i = n;
        } else {
            let closing = chars[i + 1] == '/';
            let j: usize = if closing { i + 2 } else { i + 1 };
            proof {
                lemma_name_end(s, j as int);
            }
            let mut k: usize = j;
            while k < n && chars[k] != '>' && chars[k] != '/' && !is_whitespace(chars[k])
                invariant
                    chars@ == s,
                    n == s.len(),
                    j <= k <= n,
                    name_end(s, j as int) == name_end(s, k as int),
                decreases n - k,
            {
                k += 1;
            }
            proof {
                lemma_gt_end(s, k as int);
            }
            let mut m: usize = k;
            let mut self_closing = false;
            while m < n && chars[m] != '>'
                invariant
                    chars@ == s,
                    n == s.len(),
                    k <= m <= n,
                    gt_end(s, k as int) == gt_end(s, m as int),
                    self_closing == slash_in(s, k as int, m as int),
                decreases n - m,
            {
                if chars[m] == '/' {
                    self_closing = true;
                }
                m += 1;
            }
            let name = string_of(&chars, j, k);
            i = if m < n { m + 1 } else { m };
            let ghost step = tag_step(st, closing, name@, self_closing);
            if k > j && (chars[j] == '!' || chars[j] == '?') {
            } else if self_closing {
                if depth == 0 {
                    tops.push(name);
                    assert(views(tops@) =~= st.tops.push(name@));
                }
            } else if closing {
                let top_matches = open.len() > 0 && open[open.len() - 1] == name;
                if top_matches {
                    open.pop();
                    assert(views(open@) =~= st.open.drop_last());
                    adopt(&mut orphans, &inner, &name);
                    inner = Vec::new();
                    assert(views(inner@) =~= Seq::<Seq<char>>::empty());
                    depth = 0;
                } else if open.len() > 0 && depth == 1 {
                    let e = mismatch_error(&open[open.len() - 1], &name);
                    assert(step == Err::<TagScan, Seq<char>>(e@));
                    assert(scan_from(s, i0, st) == Err::<TagScan, Seq<char>>(e@));
                    assert(top_level_tags(s) == Err::<Seq<Seq<char>>, Seq<char>>(e@));
                    return Err(e);
                } else {
                    match find_last(&inner, &name) {
                        Some(x) => {
                            proof {
                                lemma_last_index(views(inner@), name@);
                            }
                            inner.remove(x);
                            assert(views(inner@) =~= st.inner.remove(x as int));
                            depth = if depth > 0 { depth - 1 } else { 0 };
                        },
                        None => match find_owner(&orphans, &name) {
                            Some(owner) => {
                                let e = mismatch_error(&owner, &name);
                                assert(step == Err::<TagScan, Seq<char>>(e@));
                                assert(scan_from(s, i0, st) == Err::<TagScan, Seq<char>>(e@));
                                assert(top_level_tags(s) == Err::<Seq<Seq<char>>, Seq<char>>(e@));
                                return Err(e);
                            },
                            None => {
                                depth = if depth > 0 { depth - 1 } else { 0 };
                            },
                        },
                    }
                }
            } else {
                if depth == 0 {
                    tops.push(name.clone());
                    open.push(name);
                    assert(views(tops@) =~= st.tops.push(name@));
                    assert(views(open@) =~= st.open.push(name@));
                } else {
                    inner.push(name);
                    assert(views(inner@) =~= st.inner.push(name@));
                }
                depth += 1;
            }
            assert(step == Ok::<TagScan, Seq<char>>(scan_state(depth, open@, tops@, inner@, orphans@)));
        }
    }
    if open.len() > 0 {
        Err(unclosed_error(&open))
    } else {
        Ok(tops)
    }
}


/// `s[0..n]` cut at each comma: always at least one piece, possibly empty.
pub open spec fn split_prefix(s: Seq<char>, n: int) -> Seq<Seq<char>>
    decreases n,
{
    if n <= 0 {
        seq![Seq::empty()]
    } else {
        let p = split_prefix(s, n - 1);
        if s[n - 1] == ',' {
            p.push(Seq::empty())
        } else {
            p.update(p.len() - 1, p.last().push(s[n - 1]))
        }
    }
}

pub open spec fn trim_start(p: Seq<char>) -> Seq<char>
    decreases p.len(),
{
    if p.len() > 0 && is_ws(p[0]) {
        trim_start(p.drop_first())
    } else {
        p
    }
}

pub open spec fn trim_end(p: Seq<char>) -> Seq<char>
    decreases p.len(),
{
    if p.len() > 0 && is_ws(p.last()) {
        trim_end(p.drop_last())
    } else {
        p
    }
}

/// `p` without leading and trailing whitespace.
pub open spec fn trim(p: Seq<char>) -> Seq<char> {
    trim_end(trim_start(p))
}

/// The pieces trimmed, with the empty ones left out.
pub open spec fn nonempty_trimmed(pieces: Seq<Seq<char>>) -> Seq<Seq<char>>
    decreases pieces.len(),
{
    if pieces.len() == 0 {
        Seq::empty()
    } else {
        let rest = nonempty_trimmed(pieces.drop_last());
        let t = trim(pieces.last());
        if t.len() > 0 {
            rest.push(t)
        } else {
            rest
        }
    }
}

/// The tag names listed in a comma-separated configuration value.
pub open spec fn required_names(list: Seq<char>) -> Seq<Seq<char>> {
    nonempty_trimmed(split_prefix(list, list.len() as int))
}

/// The first of `names` that `present` lacks.
pub open spec fn first_missing(names: Seq<Seq<char>>, present: Seq<Seq<char>>) -> Option<Seq<char>>
    decreases names.len(),
{
    if names.len() == 0 {
        None
    } else if !present.contains(names[0]) {
        Some(names[0])
    } else {
        first_missing(names.drop_first(), present)
    }
}

pub open spec fn missing_message(name: Seq<char>) -> Seq<char> {
    "Required tag '"@ + name + "' not found at top level"@
}

/// The verdict on `content` for the comma-separated list `required`.
pub open spec fn tag_verdict(content: Seq<char>, required: Seq<char>) -> Result<(), Seq<char>> {
    let names = required_names(required);
    if names.len() == 0 {
        Ok(())
    } else {
        match top_level_tags(content) {
            Err(e) => Err(e),
            Ok(tops) => match first_missing(names, tops) {
                None => Ok(()),
                Some(name) => Err(missing_message(name)),
            },
        }
    }
}

proof fn lemma_trim_start_step(s: Seq<char>, a: int, b: int)
    requires
        0 <= a < b <= s.len(),
        is_ws(s[a]),
    ensures
        trim_start(s.subrange(a, b)) == trim_start(s.subrange(a + 1, b)),
{
    assert(s.subrange(a, b).drop_first() =~= s.subrange(a + 1, b));
}

proof fn lemma_trim_end_step(s: Seq<char>, a: int, b: int)
    requires
        0 <= a < b <= s.len(),
        is_ws(s[b - 1]),
    ensures
        trim_end(s.subrange(a, b)) == trim_end(s.subrange(a, b - 1)),
{
    assert(s.subrange(a, b).drop_last() =~= s.subrange(a, b - 1));
}

/// `trim(chars[from..to])` as a `String`.
fn trimmed(chars: &Vec<char>, from: usize, to: usize) -> (r: String)
    requires
        from <= to <= chars@.len(),
    ensures
        r@ == trim(chars@.subrange(from as int, to as int)),
{
    let ghost s = chars@;
    let mut a: usize = from;
    while a < to && is_whitespace(chars[a])
        invariant
            from <= a <= to <= s.len(),
            s == chars@,
            trim_start(s.subrange(from as int, to as int)) == trim_start(s.subrange(a as int, to as int)),
        decreases to - a,
    {
        proof {
            lemma_trim_start_step(s, a as int, to as int);
        }
        a += 1;
    }
    assert(trim_start(s.subrange(a as int, to as int)) == s.subrange(a as int, to as int));
    let mut b: usize = to;
    while b > a && is_whitespace(chars[b - 1])
        invariant
            from <= a <= b <= to <= s.len(),
            s == chars@,
            trim_end(s.subrange(a as int, to as int)) == trim_end(s.subrange(a as int, b as int)),
        decreases b,
    {
        proof {
            lemma_trim_end_step(s, a as int, b as int);
        }
        b -= 1;
    }
    assert(trim_end(s.subrange(a as int, b as int)) == s.subrange(a as int, b as int));
    string_of(chars, a, b)
}

/// The tag names listed in `list`, trimmed, without empty entries.
pub fn parse_required_tags(list: &str) -> (r: Vec<String>)
    ensures
        views(r@) == required_names(list@),
{
    let chars = chars_of(list);
    let ghost s = list@;
    let n = chars.len();
    let mut names: Vec<String> = Vec::new();
    let mut start: usize = 0;
    let mut i: usize = 0;
    let ghost mut done: Seq<Seq<char>> = Seq::empty();
    assert(views(names@) =~= nonempty_trimmed(done));
    assert(s.subrange(0, 0) =~= Seq::<char>::empty());
    assert(split_prefix(s, 0) =~= done.push(s.subrange(0, 0)));
    while i < n
        invariant
            chars@ == s,
            s == list@,
            n == s.len(),
            start <= i <= n,
            split_prefix(s, i as int) == done.push(s.subrange(start as int, i as int)),
            views(names@) == nonempty_trimmed(done),
        decreases n - i,
    {
        let ghost prev = split_prefix(s, i as int);
        if chars[i] == ',' {
            let t = trimmed(&chars, start, i);
            let ghost before = done;
            proof {
                done = done.push(s.subrange(start as int, i as int));
                assert(done.drop_last() =~= before);
            }
            assert(nonempty_trimmed(done) == if t@.len() > 0 {
                nonempty_trimmed(done.drop_last()).push(t@)
            } else {
                nonempty_trimmed(done.drop_last())
            });
            assert(done.drop_last() =~= prev.drop_last());
            if !t.as_str().is_empty() {
                names.push(t);
                assert(views(names@) =~= nonempty_trimmed(done));
            }
            start = i + 1;
            assert(s.subrange(start as int, i + 1) =~= Seq::<char>::empty());
            assert(split_prefix(s, i + 1) =~= done.push(s.subrange(start as int, i + 1)));
        } else {
            assert(s.subrange(start as int, i + 1) =~= s.subrange(start as int, i as int).push(s[i as int]));
            assert(split_prefix(s, i + 1) =~= done.push(s.subrange(start as int, i + 1)));
        }
        i += 1;
    }
    let t = trimmed(&chars, start, n);
    let ghost before = done;
    proof {
        done = done.push(s.subrange(start as int, n as int));
        assert(done.drop_last() =~= before);
    }
    assert(nonempty_trimmed(done) == if t@.len() > 0 {
        nonempty_trimmed(done.drop_last()).push(t@)
    } else {
        nonempty_trimmed(done.drop_last())
    });
    assert(done.drop_last() =~= split_prefix(s, n as int).drop_last());
    if !t.as_str().is_empty() {
        names.push(t);
        assert(views(names@) =~= nonempty_trimmed(done));
    }
    names
}


fn contains_name(names: &Vec<String>, name: &String) -> (r: bool)
    ensures
        r == views(names@).contains(name@),
{
    let mut i: usize = 0;
    while i < names.len()
        invariant
            i <= names@.len(),
            forall|p: int| 0 <= p < i ==> names@[p]@ != name@,
        decreases names.len() - i,
    {
        if names[i] == *name {
            assert(views(names@)[i as int] == name@);
            return true;
        }
        i += 1;
    }
    assert(!views(names@).contains(name@)) by {
        if views(names@).contains(name@) {
            let p = choose|p: int| 0 <= p < views(names@).len() && views(names@)[p] == name@;
            assert(names@[p]@ == name@);
        }
    }
    false
}

/// Checks that every tag named in the comma-separated list `required_tags`
/// stands at the top level of `content`, properly closed. An empty list
/// accepts any content. The error names the structural problem or the first
/// required tag that is missing.
pub fn validate_required_tags(content: &str, required_tags: &str) -> (r: Result<(), String>)
    ensures
        match tag_verdict(content@, required_tags@) {
            Ok(_) => r is Ok,
            Err(e) => r is Err && r->Err_0@ == e,
        },
{
    let names = parse_required_tags(required_tags);
    assert(views(names@).len() == names@.len());
    if names.len() == 0 {
        return Ok(());
    }
    let tops = match extract_top_level_tags(content) {
        Ok(tops) => tops,
        Err(e) => return Err(e),
    };
    let ghost want = views(names@);
    let ghost have = views(tops@);
    assert(want.subrange(0, want.len() as int) =~= want);
    let mut i: usize = 0;
    while i < names.len()
        invariant
            i <= names@.len(),
            want == views(names@),
            have == views(tops@),
            top_level_tags(content@) == Ok::<Seq<Seq<char>>, Seq<char>>(have),
            want.len() > 0,
            want == required_names(required_tags@),
            first_missing(want, have) == first_missing(want.subrange(i as int, want.len() as int), have),
        decreases names.len() - i,
    {
        let ghost rest = want.subrange(i as int, want.len() as int);
        assert(rest[0] == names@[i as int]@);
        assert(rest.drop_first() =~= want.subrange(i + 1, want.len() as int));
        if !contains_name(&tops, &names[i]) {
            let mut msg = String::from_str("Required tag '");
            msg.append(names[i].as_str());
            msg.append("' not found at top level");
            assert(first_missing(rest, have) == Some(names@[i as int]@));
            return Err(msg);
        }
        i += 1;
    }
    assert(want.subrange(i as int, want.len() as int) =~= Seq::<Seq<char>>::empty());
    Ok(())
}

} // verus!
