//! The JSON grammar's recursive rules: an element is a value between whitespace, and a value
//! may be an array of elements or an object whose members hold elements. The rules are
//! functions of the remaining input, each called anew where it is used; a spec function states
//! what each yields.
use vstd::prelude::*;
use crate::json::{Json, JsonV, lemma_array_view, lemma_object_view};
use crate::lexical::{
    boolean, boolean_outcome, null, null_outcome, number_literal, read_number, read_string,
    skip_ws, string_literal, ws_len,
};
use crate::parser::{Parser, agrees, chars_of, lemma_skip_skip};

verus! {

/// The members of an object, with a later member under a key already present replacing it
/// where it stands.
pub type Members = Seq<(Seq<char>, JsonV)>;

/// The first index from `i` on where `m` holds key `k`, or -1.
pub open spec fn find_key(m: Members, k: Seq<char>, i: int) -> int
    decreases m.len() - i,
{
    if i < 0 || i >= m.len() {
        -1
    } else if m[i].0 == k {
        i
    } else {
        find_key(m, k, i + 1)
    }
}

/// `m` with `k` bound to `v`: in place where `k` is present, at the end otherwise.
pub open spec fn insert_member(m: Members, k: Seq<char>, v: JsonV) -> Members {
    let i = find_key(m, k, 0);
    if i >= 0 {
        m.update(i, (k, v))
    } else {
        m.push((k, v))
    }
}

/// The object that the pairs `ps` make, in order, the last of equal keys winning.
pub open spec fn collect_members(ps: Members) -> Members
    decreases ps.len(),
{
    if ps.len() == 0 {
        seq![]
    } else {
        insert_member(collect_members(ps.drop_last()), ps.last().0, ps.last().1)
    }
}

/// The value of the last pair in `ps` whose key is `k`.
pub open spec fn last_value(ps: Members, k: Seq<char>) -> Option<JsonV>
    decreases ps.len(),
{
    if ps.len() == 0 {
        None
    } else if ps.last().0 == k {
        Some(ps.last().1)
    } else {
        last_value(ps.drop_last(), k)
    }
}

/// The value that `m` binds to `k`.
pub open spec fn lookup(m: Members, k: Seq<char>) -> Option<JsonV> {
    let i = find_key(m, k, 0);
    if i >= 0 {
        Some(m[i].1)
    } else {
        None
    }
}

/// No key stands twice in `m`.
pub open spec fn unique_keys(m: Members) -> bool {
    forall|i: int, j: int| 0 <= i < j < m.len() ==> #[trigger] m[i].0 != #[trigger] m[j].0
}

/// `find_key` yields the first index from `i` on that holds `k`, or -1 where none does.
proof fn lemma_find_key(m: Members, k: Seq<char>, i: int)
    requires
        0 <= i <= m.len(),
    ensures
        find_key(m, k, i) == -1 ==> forall|j: int| i <= j < m.len() ==> #[trigger] m[j].0 != k,
        find_key(m, k, i) != -1 ==> i <= find_key(m, k, i) < m.len() && m[find_key(m, k, i)].0
            == k && forall|j: int| i <= j < find_key(m, k, i) ==> #[trigger] m[j].0 != k,
    decreases m.len() - i,
{
    if i < m.len() && m[i].0 != k {
        lemma_find_key(m, k, i + 1);
    }
}

/// Where `m` has unique keys and `m[r]` holds `k`, `find_key` finds `r`.
proof fn lemma_find_unique(m: Members, k: Seq<char>, r: int)
    requires
        unique_keys(m),
        0 <= r < m.len(),
        m[r].0 == k,
    ensures
        find_key(m, k, 0) == r,
{
    lemma_find_key(m, k, 0);
    let f = find_key(m, k, 0);
    if f != r {
        if f == -1 {
            assert(m[r].0 != k);
        } else if f < r {
            assert(m[f].0 != m[r].0);
        } else {
            assert(m[r].0 != k);
        }
    }
}

/// Where no entry of `m` holds `k`, `find_key` finds none.
proof fn lemma_find_absent(m: Members, k: Seq<char>)
    requires
        forall|j: int| 0 <= j < m.len() ==> #[trigger] m[j].0 != k,
    ensures
        find_key(m, k, 0) == -1,
{
    lemma_find_key(m, k, 0);
}

/// An object built from the pairs `ps` holds each key once, and binds it to the value of the
/// last pair with that key: a later member under a key overrides every earlier one.
pub proof fn lemma_last_member_wins(ps: Members)
    ensures
        unique_keys(collect_members(ps)),
        forall|k: Seq<char>| #[trigger] lookup(collect_members(ps), k) == last_value(ps, k),
    decreases ps.len(),
{
    if ps.len() > 0 {
        let prev = ps.drop_last();
        lemma_last_member_wins(prev);
        let m = collect_members(prev);
        let (k, v) = ps.last();
        let m2 = collect_members(ps);
        assert(m2 == insert_member(m, k, v));
        lemma_find_key(m, k, 0);
        let i = find_key(m, k, 0);
        if i >= 0 {
            assert(m2 == m.update(i, (k, v)));
            assert forall|a: int, b: int| 0 <= a < b < m2.len() implies #[trigger] m2[a].0
                != #[trigger] m2[b].0 by {
                assert(m[a].0 != m[b].0);
            }
            assert forall|k2: Seq<char>| #[trigger] lookup(m2, k2) == last_value(ps, k2) by {
                lemma_find_key(m, k2, 0);
                let j = find_key(m, k2, 0);
                if k2 == k {
                    lemma_find_unique(m2, k2, i);
                } else if j >= 0 {
                    lemma_find_unique(m2, k2, j);
                    assert(lookup(m, k2) == last_value(prev, k2));
                } else {
                    assert forall|x: int| 0 <= x < m2.len() implies #[trigger] m2[x].0 != k2 by {
                        assert(m[x].0 != k2);
                    }
                    lemma_find_absent(m2, k2);
                }
            }
        } else {
            assert(m2 == m.push((k, v)));
            assert forall|a: int, b: int| 0 <= a < b < m2.len() implies #[trigger] m2[a].0
                != #[trigger] m2[b].0 by {
                if b < m.len() {
                    assert(m[a].0 != m[b].0);
                } else {
                    assert(m[a].0 != k);
                }
            }
            assert forall|k2: Seq<char>| #[trigger] lookup(m2, k2) == last_value(ps, k2) by {
                lemma_find_key(m, k2, 0);
                let j = find_key(m, k2, 0);
                if k2 == k {
                    lemma_find_unique(m2, k2, m.len() as int);
                } else if j >= 0 {
                    lemma_find_unique(m2, k2, j);
                    assert(lookup(m, k2) == last_value(prev, k2));
                } else {
                    assert forall|x: int| 0 <= x < m2.len() implies #[trigger] m2[x].0 != k2 by {
                        if x < m.len() {
                            assert(m[x].0 != k2);
                        }
                    }
                    lemma_find_absent(m2, k2);
                    assert(lookup(m, k2) == last_value(prev, k2));
                }
            }
        }
    }
}

/// An element: whitespace, a value, whitespace.
pub open spec fn element_spec(s: Seq<char>) -> Option<(JsonV, nat)>
    decreases s.len(), 3nat,
{
    let w1 = ws_len(s);
    if w1 <= s.len() {
        match value_spec(s.skip(w1 as int)) {
            Some((v, n)) => if w1 + n <= s.len() {
                Some((v, w1 + n + ws_len(s.skip((w1 + n) as int))))
            } else {
                None
            },
            None => None,
        }
    } else {
        None
    }
}

/// A value: the first of null, a boolean, a number, a string, an array and an object that
/// matches.
pub open spec fn value_spec(s: Seq<char>) -> Option<(JsonV, nat)>
    decreases s.len(), 2nat,
{
    match null_outcome(s) {
        Some(x) => Some(x),
        None => match boolean_outcome(s) {
            Some((b, n)) => Some((JsonV::Bool(b), n)),
            None => match number_literal(s) {
                Some((x, n)) => Some((JsonV::Number(x), n)),
                None => match string_literal(s) {
                    Some((x, n)) => Some((JsonV::String(x), n)),
                    None => match array_spec(s) {
                        Some((x, n)) => Some((JsonV::Array(x), n)),
                        None => match object_spec(s) {
                            Some((x, n)) => Some((JsonV::Object(x), n)),
                            None => None,
                        },
                    },
                },
            },
        },
    }
}

/// An array: `[`, then whitespace alone or elements separated by commas, then `]`.
pub open spec fn array_spec(s: Seq<char>) -> Option<(Seq<JsonV>, nat)>
    decreases s.len(), 1nat,
{
    if s.len() > 0 && s[0] == '[' {
        let t = s.skip(1);
        let w = ws_len(t);
        if w < t.len() && t[w as int] == ']' {
            Some((seq![], w + 2))
        } else {
            match items_spec(t) {
                Some((vs, n)) => if n < t.len() && t[n as int] == ']' {
                    Some((vs, n + 2))
                } else {
                    None
                },
                None => None,
            }
        }
    } else {
        None
    }
}

/// One element, then as many comma-and-element pairs as follow.
pub open spec fn items_spec(t: Seq<char>) -> Option<(Seq<JsonV>, nat)>
    decreases t.len(), 4nat,
{
    match element_spec(t) {
        Some((v, n)) => if n <= t.len() {
            let rest = items_rest(t.skip(n as int));
            Some((seq![v] + rest.0, n + rest.1))
        } else {
            None
        },
        None => None,
    }
}

/// The comma-and-element pairs at the start of `u`; a comma without an element after it is
/// left where it is.
pub open spec fn items_rest(u: Seq<char>) -> (Seq<JsonV>, nat)
    decreases u.len(), 0nat,
{
    if u.len() > 0 && u[0] == ',' {
        match element_spec(u.skip(1)) {
            Some((v, m)) => if 1 + m <= u.len() {
                let rest = items_rest(u.skip((1 + m) as int));
                (seq![v] + rest.0, 1 + m + rest.1)
            } else {
                (seq![], 0)
            },
            None => (seq![], 0),
        }
    } else {
        (seq![], 0)
    }
}

/// A member: whitespace, a string as the key, whitespace, `:`, an element.
pub open spec fn pair_spec(t: Seq<char>) -> Option<((Seq<char>, JsonV), nat)>
    decreases t.len(), 4nat,
{
    let w1 = ws_len(t);
    if w1 <= t.len() {
        match string_literal(t.skip(w1 as int)) {
            Some((k, n1)) => if w1 + n1 <= t.len() {
                let b = w1 + n1 + ws_len(t.skip((w1 + n1) as int));
                if b < t.len() && t[b as int] == ':' {
                    match element_spec(t.skip((b + 1) as int)) {
                        Some((v, n3)) => Some(((k, v), (b + 1 + n3) as nat)),
                        None => None,
                    }
                } else {
                    None
                }
            } else {
                None
            },
            None => None,
        }
    } else {
        None
    }
}

/// One member, then as many comma-and-member pairs as follow, in the order written.
pub open spec fn members_spec(t: Seq<char>) -> Option<(Members, nat)>
    decreases t.len(), 5nat,
{
    match pair_spec(t) {
        Some((p, n)) => if n <= t.len() {
            let rest = members_rest(t.skip(n as int));
            Some((seq![p] + rest.0, n + rest.1))
        } else {
            None
        },
        None => None,
    }
}

/// The comma-and-member pairs at the start of `u`.
pub open spec fn members_rest(u: Seq<char>) -> (Members, nat)
    decreases u.len(), 0nat,
{
    if u.len() > 0 && u[0] == ',' {
        match pair_spec(u.skip(1)) {
            Some((p, m)) => if 1 + m <= u.len() {
                let rest = members_rest(u.skip((1 + m) as int));
                (seq![p] + rest.0, 1 + m + rest.1)
            } else {
                (seq![], 0)
            },
            None => (seq![], 0),
        }
    } else {
        (seq![], 0)
    }
}

/// An object: `{`, then whitespace alone or members separated by commas, then `}`.
pub open spec fn object_spec(s: Seq<char>) -> Option<(Members, nat)>
    decreases s.len(), 1nat,
{
    if s.len() > 0 && s[0] == '{' {
        let t = s.skip(1);
        let w = ws_len(t);
        if w < t.len() && t[w as int] == '}' {
            Some((seq![], w + 2))
        } else {
            match members_spec(t) {
                Some((ps, n)) => if n < t.len() && t[n as int] == '}' {
                    Some((collect_members(ps), n + 2))
                } else {
                    None
                },
                None => None,
            }
        }
    } else {
        None
    }
}

/// The members written between the braces of the object that `s` starts with, in order.
pub open spec fn written_members(s: Seq<char>) -> Members {
    let t = s.skip(1);
    let w = ws_len(t);
    if w < t.len() && t[w as int] == '}' {
        seq![]
    } else {
        match members_spec(t) {
            Some((ps, _)) => ps,
            None => seq![],
        }
    }
}

/// Every object that the grammar reads holds each key once, bound to the value of the last
/// member written under that key.
pub proof fn lemma_object_last_wins(s: Seq<char>)
    requires
        object_spec(s) is Some,
    ensures
        unique_keys(object_spec(s).unwrap().0),
        forall|k: Seq<char>| #[trigger]
            lookup(object_spec(s).unwrap().0, k) == last_value(written_members(s), k),
{
    let ps = written_members(s);
    assert(object_spec(s).unwrap().0 == collect_members(ps));
    lemma_last_member_wins(ps);
}

fn parse_element(s: &[char], pos: usize) -> (r: Option<(Json, usize)>)
    requires
        pos <= s@.len(),
    ensures
        agrees(r, s@, pos, element_spec(s@.skip(pos as int))),
    decreases s@.len() - pos, 3nat,
{
    let r1 = skip_ws(s, pos);
    proof {
        lemma_skip_skip(s@, pos as int, r1 - pos);
    }
    match parse_value(s, r1) {
        Some((v, r2)) => {
            proof {
                lemma_skip_skip(s@, pos as int, r2 - pos);
            }
            let r3 = skip_ws(s, r2);
            Some((v, r3))
        },
        None => None,
    }
}

fn parse_value(s: &[char], pos: usize) -> (r: Option<(Json, usize)>)
    requires
        pos <= s@.len(),
    ensures
        agrees(r, s@, pos, value_spec(s@.skip(pos as int))),
    decreases s@.len() - pos, 2nat,
{
    if let Some(x) = null().parse(s, pos) {
        return Some(x);
    }
    if let Some((b, r)) = boolean().parse(s, pos) {
        return Some((Json::Bool(b), r));
    }
    if let Some((x, r)) = read_number(s, pos) {
        return Some((Json::Number(x), r));
    }
    if let Some((x, r)) = read_string(s, pos) {
        return Some((Json::String(x), r));
    }
    if let Some((vs, r)) = parse_array(s, pos) {
        proof {
            lemma_array_view(vs);
        }
        return Some((Json::Array(vs), r));
    }
    if let Some((m, r)) = parse_object(s, pos) {
        proof {
            lemma_object_view(m);
        }
        return Some((Json::Object(m), r));
    }
    None
}

fn parse_array(s: &[char], pos: usize) -> (r: Option<(Vec<Json>, usize)>)
    requires
        pos <= s@.len(),
    ensures
        agrees(r, s@, pos, array_spec(s@.skip(pos as int))),
    decreases s@.len() - pos, 1nat,
{
    if pos < s.len() && s[pos] == '[' {
        proof {
            lemma_skip_skip(s@, pos as int, 1);
        }
        let w = skip_ws(s, pos + 1);
        if w < s.len() && s[w] == ']' {
            let vs: Vec<Json> = Vec::new();
            proof {
                assert(vs.deep_view() =~= Seq::<JsonV>::empty());
            }
            return Some((vs, w + 1));
        }
        match parse_items(s, pos + 1) {
            Some((vs, n)) => if n < s.len() && s[n] == ']' {
                Some((vs, n + 1))
            } else {
                None
            },
            None => None,
        }
    } else {
        None
    }
}

fn parse_items(s: &[char], pos: usize) -> (r: Option<(Vec<Json>, usize)>)
    requires
        pos <= s@.len(),
    ensures
        agrees(r, s@, pos, items_spec(s@.skip(pos as int))),
    decreases s@.len() - pos, 4nat,
{
    let (v0, r0) = match parse_element(s, pos) {
        Some(x) => x,
        None => {
            return None;
        },
    };
    let mut vs: Vec<Json> = Vec::new();
    let ghost g0 = v0;
    vs.push(v0);
    let mut input: usize = r0;
    proof {
        assert(vs.deep_view() =~= seq![g0.deep_view()]);
        lemma_skip_skip(s@, pos as int, r0 - pos);
    }
    loop
        invariant
            pos <= input <= s@.len(),
            items_spec(s@.skip(pos as int)) == Some((
                vs.deep_view() + items_rest(s@.skip(input as int)).0,
                ((input - pos) + items_rest(s@.skip(input as int)).1) as nat,
            )),
        decreases s@.len() - input,
    {
        proof {
            if input < s@.len() {
                lemma_skip_skip(s@, input as int, 1);
            }
        }
        if input < s.len() && s[input] == ',' {
            if let Some((v, r)) = parse_element(s, input + 1) {
                proof {
                    lemma_skip_skip(s@, input as int, r - input);
                }
                let ghost old_vs = vs;
                vs.push(v);
                proof {
                    let rest = items_rest(s@.skip(r as int));
                    assert(vs.deep_view() =~= old_vs.deep_view().push(v.deep_view()));
                    assert(old_vs.deep_view() + (seq![v.deep_view()] + rest.0) =~= vs.deep_view()
                        + rest.0);
                }
                input = r;
                continue ;
            }
        }
        proof {
            assert(vs.deep_view() + Seq::<JsonV>::empty() =~= vs.deep_view());
        }
        return Some((vs, input));
    }
}

/// Binds `k` to `v` in `m`, replacing the member with that key where there is one.
fn insert_entry(m: &mut Vec<(String, Json)>, k: String, v: Json)
    ensures
        final(m).deep_view() == insert_member(old(m).deep_view(), k@, v.deep_view()),
{
    let mut i: usize = 0;
    while i < m.len()
        invariant
            i <= m@.len(),
            m.deep_view() == old(m).deep_view(),
            find_key(m.deep_view(), k@, 0) == find_key(m.deep_view(), k@, i as int),
        decreases m@.len() - i,
    {
        if m[i].0 == k {
            let ghost before = m.deep_view();
            let ghost kv = (k@, v.deep_view());
            m.set(i, (k, v));
            proof {
                assert(m.deep_view() =~= before.update(i as int, kv));
            }
            return;
        }
        i = i + 1;
    }
    let ghost before = m.deep_view();
    let ghost kv = (k@, v.deep_view());
    m.push((k, v));
    proof {
        assert(m.deep_view() =~= before.push(kv));
    }
}

fn parse_pair(s: &[char], pos: usize) -> (r: Option<((String, Json), usize)>)
    requires
        pos <= s@.len(),
    ensures
        agrees(r, s@, pos, pair_spec(s@.skip(pos as int))),
    decreases s@.len() - pos, 4nat,
{
    let w1 = skip_ws(s, pos);
    proof {
        lemma_skip_skip(s@, pos as int, w1 - pos);
    }
    let (k, r1) = match read_string(s, w1) {
        Some(x) => x,
        None => {
            return None;
        },
    };
    proof {
        lemma_skip_skip(s@, pos as int, r1 - pos);
    }
    let b = skip_ws(s, r1);
    if b < s.len() && s[b] == ':' {
        proof {
            lemma_skip_skip(s@, pos as int, b + 1 - pos);
        }
        match parse_element(s, b + 1) {
            Some((v, r)) => Some(((k, v), r)),
            None => None,
        }
    } else {
        None
    }
}

fn parse_members(s: &[char], pos: usize) -> (r: Option<(Vec<(String, Json)>, usize)>)
    requires
        pos <= s@.len(),
    ensures
        match r {
            None => members_spec(s@.skip(pos as int)) is None,
            Some((m, p)) => pos <= p <= s@.len() && (members_spec(s@.skip(pos as int)) matches Some(
                (ps, n),
            ) && n == p - pos && m.deep_view() == collect_members(ps)),
        },
    decreases s@.len() - pos, 5nat,
{
    let (p0, r0) = match parse_pair(s, pos) {
        Some(x) => x,
        None => {
            return None;
        },
    };
    let ghost parsed: Members = seq![p0.deep_view()];
    let mut m: Vec<(String, Json)> = Vec::new();
    proof {
        assert(m.deep_view() =~= Seq::<(Seq<char>, JsonV)>::empty());
        assert(parsed.drop_last() =~= Seq::<(Seq<char>, JsonV)>::empty());
    }
    insert_entry(&mut m, p0.0, p0.1);
    let mut input: usize = r0;
    proof {
        let e = Seq::<(Seq<char>, JsonV)>::empty();
        assert(collect_members(e) == e);
        assert(collect_members(parsed) == insert_member(collect_members(e), p0.0@, p0.1.deep_view()));
        lemma_skip_skip(s@, pos as int, r0 - pos);
    }
    loop
        invariant
            pos <= input <= s@.len(),
            members_spec(s@.skip(pos as int)) == Some((
                parsed + members_rest(s@.skip(input as int)).0,
                ((input - pos) + members_rest(s@.skip(input as int)).1) as nat,
            )),
            m.deep_view() == collect_members(parsed),
        decreases s@.len() - input,
    {
        proof {
            if input < s@.len() {
                lemma_skip_skip(s@, input as int, 1);
            }
        }
        if input < s.len() && s[input] == ',' {
            if let Some((p, r)) = parse_pair(s, input + 1) {
                proof {
                    lemma_skip_skip(s@, input as int, r - input);
                    let rest = members_rest(s@.skip(r as int));
                    assert(parsed + (seq![p.deep_view()] + rest.0) =~= parsed.push(p.deep_view())
                        + rest.0);
                    assert(parsed.push(p.deep_view()).drop_last() =~= parsed);
                }
                let ghost kv = p.deep_view();
                insert_entry(&mut m, p.0, p.1);
                proof {
                    parsed = parsed.push(kv);
                }
                input = r;
                continue ;
            }
        }
        proof {
            assert(parsed + Seq::<(Seq<char>, JsonV)>::empty() =~= parsed);
        }
        return Some((m, input));
    }
}

fn parse_object(s: &[char], pos: usize) -> (r: Option<(Vec<(String, Json)>, usize)>)
    requires
        pos <= s@.len(),
    ensures
        agrees(r, s@, pos, object_spec(s@.skip(pos as int))),
    decreases s@.len() - pos, 1nat,
{
    if pos < s.len() && s[pos] == '{' {
        proof {
            lemma_skip_skip(s@, pos as int, 1);
        }
        let w = skip_ws(s, pos + 1);
        if w < s.len() && s[w] == '}' {
            let m: Vec<(String, Json)> = Vec::new();
            proof {
                assert(m.deep_view() =~= Seq::<(Seq<char>, JsonV)>::empty());
            }
            return Some((m, w + 1));
        }
        match parse_members(s, pos + 1) {
            Some((m, n)) => if n < s.len() && s[n] == '}' {
                Some((m, n + 1))
            } else {
                None
            },
            None => None,
        }
    } else {
        None
    }
}

/// The top-level rule: an element, with whitespace around it.
pub struct ElementParser;

impl Parser<Json> for ElementParser {
    open spec fn outcome(&self, s: Seq<char>) -> Option<(JsonV, nat)> {
        element_spec(s)
    }

    fn parse(&self, s: &[char], pos: usize) -> (r: Option<(Json, usize)>) {
        parse_element(s, pos)
    }
}

/// A value, with no whitespace around it.
pub struct ValueParser;

impl Parser<Json> for ValueParser {
    open spec fn outcome(&self, s: Seq<char>) -> Option<(JsonV, nat)> {
        value_spec(s)
    }

    fn parse(&self, s: &[char], pos: usize) -> (r: Option<(Json, usize)>) {
        parse_value(s, pos)
    }
}

/// An array, yielding its elements.
pub struct ArrayParser;

impl Parser<Vec<Json>> for ArrayParser {
    open spec fn outcome(&self, s: Seq<char>) -> Option<(Seq<JsonV>, nat)> {
        array_spec(s)
    }

    fn parse(&self, s: &[char], pos: usize) -> (r: Option<(Vec<Json>, usize)>) {
        parse_array(s, pos)
    }
}

/// An object, yielding its members.
pub struct ObjectParser;

impl Parser<Vec<(String, Json)>> for ObjectParser {
    open spec fn outcome(&self, s: Seq<char>) -> Option<(Members, nat)> {
        object_spec(s)
    }

    fn parse(&self, s: &[char], pos: usize) -> (r: Option<(Vec<(String, Json)>, usize)>) {
        parse_object(s, pos)
    }
}

/// The rule for an element.
pub fn element() -> (r: ElementParser) {
    ElementParser
}

/// The rule for a value.
pub fn value() -> (r: ValueParser) {
    ValueParser
}

/// The rule for an array.
pub fn array() -> (r: ArrayParser) {
    ArrayParser
}

/// The rule for an object.
pub fn object() -> (r: ObjectParser) {
    ObjectParser
}

/// The value that text `s` starts with, as an element; what follows it is ignored.
pub open spec fn parse_spec(s: Seq<char>) -> Option<JsonV> {
    match element_spec(s) {
        Some((v, _)) => Some(v),
        None => None,
    }
}

/// Parses the JSON value at the start of `s`. Characters after it are ignored.
pub fn parse(s: &str) -> (r: Option<Json>)
    ensures
        match r {
            None => parse_spec(s@) is None,
            Some(j) => parse_spec(s@) == Some(j.deep_view()),
        },
{
    let cs = chars_of(s);
    proof {
        assert(cs@.skip(0) =~= s@);
    }
    match parse_element(cs.as_slice(), 0) {
        Some((j, _)) => Some(j),
        None => None,
    }
}

} // verus!
