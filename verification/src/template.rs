//! The template engine: substitutes `{{name}}` placeholders with values
//! from a worker's variable map.
//!
//! A placeholder is an opening `{{`, a variable name, and the first closing
//! `}}` after it. A placeholder whose name is not bound is left verbatim in
//! the output; rendering never fails.

use vstd::prelude::*;

use crate::varmap::VarMap;

verus! {

/// A placeholder opens at `i`: the two characters `{{`.
pub open spec fn is_open_at(s: Seq<char>, i: int) -> bool {
    0 <= i && i + 1 < s.len() && s[i] == '{' && s[i + 1] == '{'
}

/// A placeholder closes at `i`: the two characters `}}`.
pub open spec fn is_close_at(s: Seq<char>, i: int) -> bool {
    0 <= i && i + 1 < s.len() && s[i] == '}' && s[i + 1] == '}'
}

/// The position of the first closing `}}` at or after `i`, or `s.len()`
/// when there is none.
pub open spec fn find_close(s: Seq<char>, i: int) -> int
    decreases s.len() - i when 0 <= i
{
    if i + 1 >= s.len() {
        s.len() as int
    } else if s[i] == '}' && s[i + 1] == '}' {
        i
    } else {
        find_close(s, i + 1)
    }
}

/// `find_close` returns the first close at or after `i`, and the sequence
/// length when no close exists there.
pub proof fn lemma_find_close(s: Seq<char>, i: int)
    requires
        0 <= i <= s.len(),
    ensures
        i <= find_close(s, i) <= s.len(),
        find_close(s, i) < s.len() ==> is_close_at(s, find_close(s, i)),
        forall|k: int| i <= k < find_close(s, i) ==> !is_close_at(s, k),
    decreases s.len() - i,
{
    if i + 1 >= s.len() {
    } else if s[i] == '}' && s[i + 1] == '}' {
    } else {
        lemma_find_close(s, i + 1);
    }
}

/// The rendering of the suffix of `s` that starts at `i`.
pub open spec fn render_from(s: Seq<char>, m: Map<Seq<char>, Seq<char>>, i: int) -> Seq<char>
    decreases s.len() - i when 0 <= i <= s.len()
{
    if i >= s.len() {
        Seq::empty()
    } else if is_open_at(s, i) {
        let j = find_close(s, i + 2);
        if i + 2 <= j && j + 1 < s.len() {
            let name = s.subrange(i + 2, j);
            if m.contains_key(name) {
                m[name] + render_from(s, m, j + 2)
            } else {
                s.subrange(i, j + 2) + render_from(s, m, j + 2)
            }
        } else {
            s.subrange(i, s.len() as int)
        }
    } else {
        seq![s[i]] + render_from(s, m, i + 1)
    }
}

/// The rendering of `s` against the variable map `m`: every placeholder
/// whose name `m` binds is replaced by the bound value, every other
/// character — unresolved placeholders included — is kept verbatim.
pub open spec fn render(s: Seq<char>, m: Map<Seq<char>, Seq<char>>) -> Seq<char> {
    render_from(s, m, 0)
}

/// `s` holds no placeholder opener at all.
pub open spec fn fully_resolved(s: Seq<char>) -> bool {
    forall|i: int| !is_open_at(s, i)
}

proof fn lemma_render_from_resolved(s: Seq<char>, m: Map<Seq<char>, Seq<char>>, i: int)
    requires
        fully_resolved(s),
        0 <= i <= s.len(),
    ensures
        render_from(s, m, i) == s.subrange(i, s.len() as int),
    decreases s.len() - i,
{
    if i >= s.len() {
        assert(render_from(s, m, i) =~= s.subrange(i, s.len() as int));
    } else {
        assert(!is_open_at(s, i));
        lemma_render_from_resolved(s, m, i + 1);
        assert(seq![s[i]] + s.subrange(i + 1, s.len() as int) =~= s.subrange(i, s.len() as int));
    }
}

/// Rendering is idempotent: a string that is already fully resolved — it
/// holds no placeholder opener — renders to itself, whatever the map, so
/// re-rendering an already-rendered string yields the same string.
pub proof fn lemma_render_resolved(s: Seq<char>, m: Map<Seq<char>, Seq<char>>)
    requires
        fully_resolved(s),
    ensures
        render(s, m) == s,
{
    lemma_render_from_resolved(s, m, 0);
    assert(s.subrange(0, s.len() as int) =~= s);
}

proof fn lemma_render_from_empty(s: Seq<char>, i: int)
    requires
        0 <= i <= s.len(),
    ensures
        render_from(s, Map::empty(), i) == s.subrange(i, s.len() as int),
    decreases s.len() - i,
{
    let m = Map::<Seq<char>, Seq<char>>::empty();
    if i >= s.len() {
        assert(render_from(s, m, i) =~= s.subrange(i, s.len() as int));
    } else if is_open_at(s, i) {
        let j = find_close(s, i + 2);
        if i + 2 <= j && j + 1 < s.len() {
            assert(!m.contains_key(s.subrange(i + 2, j)));
            lemma_render_from_empty(s, j + 2);
            assert(s.subrange(i, j + 2) + s.subrange(j + 2, s.len() as int) =~= s.subrange(
                i,
                s.len() as int,
            ));
        }
    } else {
        lemma_render_from_empty(s, i + 1);
        assert(seq![s[i]] + s.subrange(i + 1, s.len() as int) =~= s.subrange(i, s.len() as int));
    }
}

/// Rendering never fails and an unresolved placeholder passes through
/// verbatim: against a map with no bindings at all, every string — whatever
/// placeholders it holds — renders to itself.
pub proof fn lemma_render_unbound(s: Seq<char>)
    ensures
        render(s, Map::empty()) == s,
{
    lemma_render_from_empty(s, 0);
    assert(s.subrange(0, s.len() as int) =~= s);
}

/// Renders `s` against `map`, substituting every placeholder whose name is
/// bound and leaving every other placeholder verbatim.
pub fn find_and_replace(s: &str, map: &VarMap) -> (r: String)
    ensures
        r@ == render(s@, map@),
{
    let n = s.unicode_len();
    let mut out = String::new();
    let mut i: usize = 0;
    while i < n
        invariant
            n == s@.len(),
            i <= n,
            out@ + render_from(s@, map@, i as int) == render_from(s@, map@, 0),
        decreases n - i,
    {
        if i + 1 < n && s.get_char(i) == '{' && s.get_char(i + 1) == '{' {
            proof {
                lemma_find_close(s@, i as int + 2);
            }
            let mut k: usize = i + 2;
            while k < n - 1 && !(s.get_char(k) == '}' && s.get_char(k + 1) == '}')
                invariant
                    n == s@.len(),
                    i + 2 <= k <= n,
                    find_close(s@, i as int + 2) == find_close(s@, k as int),
                decreases n - k,
            {
                proof {
                    assert(find_close(s@, k as int) == find_close(s@, k as int + 1));
                }
                k = k + 1;
            }
            let ghost old_out = out@;
            if k < n - 1 {
                // the placeholder closes at k
                proof {
                    assert(find_close(s@, k as int) == k as int);
                }
                let name = s.substring_char(i + 2, k);
                let name_string = name.to_owned();
                match map.get(&name_string) {
                    Some(value) => {
                        out.append(value.as_str());
                    },
                    None => {
                        let verbatim = s.substring_char(i, k + 2);
                        out.append(verbatim);
                    },
                }
                proof {
                    let sv = s@;
                    let m = map@;
                    let i0 = i as int;
                    let j = k as int;
                    assert(is_open_at(sv, i0));
                    assert(render_from(sv, m, i0) == if m.contains_key(sv.subrange(i0 + 2, j)) {
                        m[sv.subrange(i0 + 2, j)] + render_from(sv, m, j + 2)
                    } else {
                        sv.subrange(i0, j + 2) + render_from(sv, m, j + 2)
                    });
                    assert(out@ + render_from(sv, m, j + 2) =~= old_out + render_from(sv, m, i0));
                }
                i = k + 2;
            } else {
                // no close remains: the rest of the string is literal
                proof {
                    assert(find_close(s@, k as int) == n as int);
                }
                let verbatim = s.substring_char(i, n);
                out.append(verbatim);
                proof {
                    assert(render_from(s@, map@, i as int) == s@.subrange(i as int, n as int));
                    assert(out@ + render_from(s@, map@, n as int) =~= old_out + render_from(
                        s@,
                        map@,
                        i as int,
                    ));
                }
                i = n;
            }
        } else {
            let ghost old_out = out@;
            let c = s.substring_char(i, i + 1);
            out.append(c);
            proof {
                let sv = s@;
                let i0 = i as int;
                assert(!is_open_at(sv, i0));
                assert(render_from(sv, map@, i0) == seq![sv[i0]] + render_from(sv, map@, i0 + 1));
                assert(c@ =~= seq![sv[i0]]);
                assert(out@ + render_from(sv, map@, i0 + 1) =~= old_out + render_from(
                    sv,
                    map@,
                    i0,
                ));
            }
            i = i + 1;
        }
    }
    proof {
        assert(render_from(s@, map@, n as int) =~= Seq::<char>::empty());
        assert(out@ + Seq::<char>::empty() =~= out@);
    }
    out
}

} // verus!

