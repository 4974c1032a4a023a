//! The `[check]` section of a project's configuration: the type files and
//! lint plugins to load, and the lint sets that are active.
use vstd::prelude::*;
use crate::byte_str::{
    bytes_less,
    bytes_less_exec,
    lemma_bytes_less_irreflexive,
    lemma_bytes_less_total,
    lemma_bytes_less_transitive,
};
use vstd::utf8::{decode_utf8, encode_utf8, encode_utf8_decode_utf8};

verus! {

/// The `[check]` section: paths to type files and to lint plugins, the
/// lint sets enabled by default, and those recognised but off by default.
#[derive(Debug, Clone)]
pub struct CheckConfig {
    pub types: Vec<String>,
    pub plugins: Vec<String>,
    pub default_sets: Vec<String>,
    pub optional_sets: Vec<String>,
}

impl Default for CheckConfig {
    fn default() -> (r: Self)
        ensures
            r.types@.len() == 0,
            r.plugins@.len() == 0,
            r.default_sets@.len() == 0,
            r.optional_sets@.len() == 0,
    {
        CheckConfig {
            types: Vec::new(),
            plugins: Vec::new(),
            default_sets: Vec::new(),
            optional_sets: Vec::new(),
        }
    }
}

/// The texts of the strings.
pub open spec fn views(v: Seq<String>) -> Seq<Seq<char>> {
    v.map_values(|s: String| s@)
}

/// Names in the order of `String`: byte-wise on their UTF-8 encodings.
pub open spec fn name_less(a: Seq<char>, b: Seq<char>) -> bool {
    bytes_less(encode_utf8(a), encode_utf8(b))
}

/// Strictly increasing, hence without repetition.
pub open spec fn strictly_sorted(v: Seq<Seq<char>>) -> bool {
    forall|i: int, j: int| 0 <= i < j < v.len() ==> name_less(#[trigger] v[i], #[trigger] v[j])
}

/// The sets enabled by default: the configured ones, or `builtins` when
/// none are configured.
pub open spec fn default_sets_of(c: CheckConfig) -> Seq<Seq<char>> {
    if c.default_sets@.len() == 0 {
        seq!["builtins"@]
    } else {
        views(c.default_sets@)
    }
}

/// Is `x` active: a default or enabled set that is not disabled?
pub open spec fn is_active(c: CheckConfig, enabled: Seq<Seq<char>>, disabled: Seq<Seq<char>>, x: Seq<char>) -> bool {
    (default_sets_of(c).contains(x) || enabled.contains(x)) && !disabled.contains(x)
}

pub(crate) proof fn lemma_name_order(a: Seq<char>, b: Seq<char>, c: Seq<char>)
    ensures
        !name_less(a, a),
        name_less(a, b) && name_less(b, c) ==> name_less(a, c),
        a == b || name_less(a, b) || name_less(b, a),
{
    lemma_bytes_less_irreflexive(encode_utf8(a));
    if name_less(a, b) && name_less(b, c) {
        lemma_bytes_less_transitive(encode_utf8(a), encode_utf8(b), encode_utf8(c));
    }
    lemma_bytes_less_total(encode_utf8(a), encode_utf8(b));
    encode_utf8_decode_utf8(a);
    encode_utf8_decode_utf8(b);
}

/// Does the name `a` sort strictly before `b`?
fn name_less_exec(a: &String, b: &String) -> (r: bool)
    ensures
        r == name_less(a@, b@),
{
    bytes_less_exec(a.as_str().as_bytes(), b.as_str().as_bytes())
}

/// Add `s` to the strictly sorted names `out`, unless it is there.
pub(crate) fn insert_name(out: &mut Vec<String>, s: &String)
    requires
        strictly_sorted(views(old(out)@)),
    ensures
        strictly_sorted(views(final(out)@)),
        forall|x: Seq<char>| #[trigger] views(final(out)@).contains(x) <==> (views(old(out)@).contains(x) || x == s@),
{
    let n = out.len();
    let mut p: usize = 0;
    while p < n && name_less_exec(&out[p], s)
        invariant
            n == out@.len(),
            p <= n,
            forall|j: int| 0 <= j < p ==> name_less(#[trigger] out@[j]@, s@),
        decreases n - p,
    {
        p = p + 1;
    }
    let ghost v0 = views(out@);
    if p < n && out[p] == *s {
        assert(v0[p as int] == s@);
        return;
    }
    proof {
        if p < n {
            lemma_name_order(v0[p as int], s@, s@);
            assert(name_less(s@, v0[p as int]));
        }
    }
    out.insert(p, s.clone());
    let ghost v1 = views(out@);
    proof {
        assert(v1 =~= v0.insert(p as int, s@));
        assert forall|i: int, j: int| 0 <= i < j < v1.len() implies name_less(#[trigger] v1[i], #[trigger] v1[j]) by {
            if j < p {
                assert(v1[i] == v0[i] && v1[j] == v0[j]);
            } else if j == p {
                assert(v1[i] == v0[i] && v1[j] == s@);
                assert(name_less(out@[i]@, s@)) by {
                    assert(v0[i] == old(out)@[i]@);
                }
            } else if i < p {
                assert(v1[i] == v0[i] && v1[j] == v0[j - 1]);
                lemma_name_order(v0[i], v0[p as int], v0[j - 1]);
                if j - 1 > p {
                    assert(name_less(v0[p as int], v0[j - 1]));
                }
            } else if i == p {
                assert(v1[j] == v0[j - 1]);
                lemma_name_order(s@, v0[p as int], v0[j - 1]);
                if j - 1 > p {
                    assert(name_less(v0[p as int], v0[j - 1]));
                }
            } else {
                assert(v1[i] == v0[i - 1] && v1[j] == v0[j - 1]);
            }
        }
        assert forall|x: Seq<char>| #[trigger] v1.contains(x) <==> (v0.contains(x) || x == s@) by {
            if v1.contains(x) {
                let k = choose|k: int| 0 <= k < v1.len() && v1[k] == x;
                if k < p {
                    assert(v0[k] == x);
                } else if k > p {
                    assert(v0[k - 1] == x);
                }
            }
            if v0.contains(x) {
                let k = choose|k: int| 0 <= k < v0.len() && v0[k] == x;
                if k < p {
                    assert(v1[k] == x);
                } else {
                    assert(v1[k + 1] == x);
                }
            }
            if x == s@ {
                assert(v1[p as int] == x);
            }
        }
    }
}

/// Remove `s` from the strictly sorted names `out`, if it is there.
fn remove_name(out: &mut Vec<String>, s: &String)
    requires
        strictly_sorted(views(old(out)@)),
    ensures
        strictly_sorted(views(final(out)@)),
        forall|x: Seq<char>| #[trigger] views(final(out)@).contains(x) <==> (views(old(out)@).contains(x) && x != s@),
{
    let n = out.len();
    let mut p: usize = 0;
    while p < n && !(out[p] == *s)
        invariant
            n == out@.len(),
            p <= n,
            forall|j: int| 0 <= j < p ==> #[trigger] out@[j]@ != s@,
        decreases n - p,
    {
        p = p + 1;
    }
    let ghost v0 = views(out@);
    if p == n {
        assert forall|x: Seq<char>| #[trigger] v0.contains(x) implies x != s@ by {
            let k = choose|k: int| 0 <= k < v0.len() && v0[k] == x;
            assert(out@[k]@ == x);
        }
        return;
    }
    out.remove(p);
    let ghost v1 = views(out@);
    proof {
        assert(v1 =~= v0.remove(p as int));
        assert forall|i: int, j: int| 0 <= i < j < v1.len() implies name_less(#[trigger] v1[i], #[trigger] v1[j]) by {
            let a = if i < p { i } else { i + 1 };
            let b = if j < p { j } else { j + 1 };
            assert(v1[i] == v0[a] && v1[j] == v0[b]);
        }
        assert forall|x: Seq<char>| #[trigger] v1.contains(x) <==> (v0.contains(x) && x != s@) by {
            if v1.contains(x) {
                let k = choose|k: int| 0 <= k < v1.len() && v1[k] == x;
                let a = if k < p { k } else { k + 1 };
                assert(v0[a] == x);
                lemma_name_order(v0[a], v0[a], v0[a]);
                if a < p {
                    assert(name_less(v0[a], v0[p as int]));
                } else {
                    assert(name_less(v0[p as int], v0[a]));
                }
            }
            if v0.contains(x) && x != s@ {
                let k = choose|k: int| 0 <= k < v0.len() && v0[k] == x;
                assert(k != p);
                if k < p {
                    assert(v1[k] == x);
                } else {
                    assert(v1[k - 1] == x);
                }
            }
        }
    }
}

proof fn lemma_take_contains(d: Seq<Seq<char>>, i: int)
    requires
        0 <= i < d.len(),
    ensures
        forall|x: Seq<char>| #[trigger] d.take(i + 1).contains(x) <==> (d.take(i).contains(x) || x == d[i]),
{
    let t0 = d.take(i);
    let t1 = d.take(i + 1);
    assert forall|x: Seq<char>| #[trigger] t1.contains(x) <==> (t0.contains(x) || x == d[i]) by {
        if t1.contains(x) {
            let k = choose|k: int| 0 <= k < t1.len() && t1[k] == x;
            if k < i {
                assert(t0[k] == x);
            }
        }
        if t0.contains(x) {
            let k = choose|k: int| 0 <= k < t0.len() && t0[k] == x;
            assert(t1[k] == x);
        }
        if x == d[i] {
            assert(t1[i] == x);
        }
    }
}

impl CheckConfig {
    /// The sets enabled by default: the configured ones, or `builtins`.
    pub fn resolved_default_sets(&self) -> (r: Vec<String>)
        ensures
            views(r@) == default_sets_of(*self),
    {
        if self.default_sets.len() == 0 {
            let mut v: Vec<String> = Vec::new();
            v.push(String::from_str("builtins"));
            assert(views(v@) =~= seq!["builtins"@]);
            v
        } else {
            let v = self.default_sets.clone();
            assert(views(v@) =~= views(self.default_sets@));
            v
        }
    }

    /// The active lint sets: the defaults plus those `enabled`, minus those
    /// `disabled` (which wins for a name in both), sorted, each once.
    pub fn active_sets(&self, enabled: &[String], disabled: &[String]) -> (r: Vec<String>)
        ensures
            strictly_sorted(views(r@)),
            forall|x: Seq<char>| #[trigger] views(r@).contains(x) <==> is_active(
                *self,
                views(enabled@),
                views(disabled@),
                x,
            ),
    {
        let defaults = self.resolved_default_sets();
        let mut out: Vec<String> = Vec::new();
        let mut i: usize = 0;
        while i < defaults.len()
            invariant
                i <= defaults@.len(),
                strictly_sorted(views(out@)),
                forall|x: Seq<char>| #[trigger] views(out@).contains(x) <==> views(defaults@).take(i as int).contains(x),
            decreases defaults@.len() - i,
        {
            insert_name(&mut out, &defaults[i]);
            proof {
                lemma_take_contains(views(defaults@), i as int);
            }
            i = i + 1;
        }
        assert(views(defaults@).take(defaults@.len() as int) =~= views(defaults@));
        let ne = enabled.len();
        let mut j: usize = 0;
        while j < ne
            invariant
                ne == enabled@.len(),
                j <= ne,
                strictly_sorted(views(out@)),
                forall|x: Seq<char>| #[trigger] views(out@).contains(x) <==> (views(defaults@).contains(x) || views(enabled@).take(j as int).contains(x)),
            decreases ne - j,
        {
            insert_name(&mut out, &enabled[j]);
            proof {
                lemma_take_contains(views(enabled@), j as int);
            }
            j = j + 1;
        }
        assert(views(enabled@).take(ne as int) =~= views(enabled@));
        let nd = disabled.len();
        let mut k: usize = 0;
        while k < nd
            invariant
                nd == disabled@.len(),
                k <= nd,
                strictly_sorted(views(out@)),
                forall|x: Seq<char>| #[trigger] views(out@).contains(x) <==> ((views(defaults@).contains(x) || views(enabled@).contains(x)) && !views(disabled@).take(k as int).contains(x)),
            decreases nd - k,
        {
            remove_name(&mut out, &disabled[k]);
            proof {
                lemma_take_contains(views(disabled@), k as int);
            }
            k = k + 1;
        }
        assert(views(disabled@).take(nd as int) =~= views(disabled@));
        out
    }
}

/// A set that is disabled is never active, even when enabled too; an
/// enabled or default set that is not disabled always is.
pub proof fn law_disabled_wins(c: CheckConfig, enabled: Seq<Seq<char>>, disabled: Seq<Seq<char>>, x: Seq<char>)
    ensures
        disabled.contains(x) ==> !is_active(c, enabled, disabled, x),
        (enabled.contains(x) || default_sets_of(c).contains(x)) && !disabled.contains(x) ==> is_active(
            c,
            enabled,
            disabled,
            x,
        ),
{
}

} // verus!
