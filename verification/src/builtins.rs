//! The core global functions and the registration of the sandbox-safe
//! standard libraries.
use vstd::prelude::*;
use crate::env::{
    GlobalEnv,
    GlobalView,
    Module,
    cache_loaded,
    has_str,
    install_module,
    same_rest,
    set_functions,
};
use crate::error::{LibError, bad_argument, is_bad_argument_got};
use crate::io_lib::{lossy_text, utf8_lossy};
use crate::libraries::{is_space, trim_back, trim_front};

verus! {

/// The names of the core global functions.
pub open spec fn builtin_names() -> Seq<&'static str> {
    seq![
        "type",
        "typeof",
        "rawget",
        "rawset",
        "rawequal",
        "rawlen",
        "tonumber",
        "tostring",
        "next",
        "getmetatable",
        "setmetatable",
        "select",
        "error",
        "assert",
        "pairs",
        "ipairs",
        "print",
        "collectgarbage",
    ]
}

/// The names of the `load` family.
pub open spec fn load_names() -> Seq<&'static str> {
    seq!["load", "loadfile", "dofile"]
}

/// The sandbox-safe library tables installed with the builtins.
pub open spec fn sandboxed_tables() -> Seq<&'static str> {
    seq!["bit32", "math", "string", "table", "utf8"]
}

/// The table installed for a sandbox-safe library name.
pub open spec fn sandboxed_table(n: Seq<char>) -> Option<GlobalView> {
    if n == "bit32"@ {
        Some(GlobalView::Table(seq![Module::Bit32]))
    } else if n == "math"@ {
        Some(GlobalView::Table(seq![Module::Math]))
    } else if n == "string"@ {
        Some(GlobalView::Table(seq![Module::String]))
    } else if n == "table"@ {
        Some(GlobalView::Table(seq![Module::Table]))
    } else if n == "utf8"@ {
        Some(GlobalView::Table(seq![Module::Utf8]))
    } else {
        None
    }
}

/// The globals after `register_sandboxed`.
pub open spec fn sandboxed_global(old_value: Option<GlobalView>, n: Seq<char>) -> Option<GlobalView> {
    if sandboxed_table(n) is Some {
        sandboxed_table(n)
    } else if has_str(builtin_names(), n) {
        Some(GlobalView::Function(Module::Builtins))
    } else {
        old_value
    }
}

proof fn lemma_table_names_distinct()
    ensures
        "bit32"@ != "math"@,
        "bit32"@ != "string"@,
        "bit32"@ != "table"@,
        "bit32"@ != "utf8"@,
        "math"@ != "string"@,
        "math"@ != "table"@,
        "math"@ != "utf8"@,
        "string"@ != "table"@,
        "string"@ != "utf8"@,
        "table"@ != "utf8"@,
{
    reveal_strlit("bit32");
    reveal_strlit("math");
    reveal_strlit("string");
    reveal_strlit("table");
    reveal_strlit("utf8");
    assert("bit32"@[0] != "math"@[0]);
    assert("bit32"@.len() != "string"@.len());
    assert("bit32"@[0] != "table"@[0]);
    assert("bit32"@.len() != "utf8"@.len());
    assert("math"@.len() != "string"@.len());
    assert("math"@.len() != "table"@.len());
    assert("math"@[0] != "utf8"@[0]);
    assert("string"@.len() != "table"@.len());
    assert("string"@.len() != "utf8"@.len());
    assert("table"@.len() != "utf8"@.len());
}

proof fn lemma_table_names()
    ensures
        forall|n: Seq<char>| #[trigger] sandboxed_table(n) is Some <==> has_str(sandboxed_tables(), n),
{
    assert forall|n: Seq<char>| #[trigger] sandboxed_table(n) is Some <==> has_str(
        sandboxed_tables(),
        n,
    ) by {
        let t = sandboxed_tables();
        if sandboxed_table(n) is Some {
            if n == "bit32"@ {
                assert(t[0]@ == n);
            } else if n == "math"@ {
                assert(t[1]@ == n);
            } else if n == "string"@ {
                assert(t[2]@ == n);
            } else if n == "table"@ {
                assert(t[3]@ == n);
            } else {
                assert(t[4]@ == n);
            }
        }
        if has_str(t, n) {
            let k = choose|k: int| 0 <= k < t.len() && (#[trigger] t[k])@ == n;
            assert(k == 0 || k == 1 || k == 2 || k == 3 || k == 4);
        }
    }
}

/// Install the core global functions, the sandbox-safe library tables
/// (`bit32`, `math`, `string`, `table`, `utf8`, with the string metatable)
/// and their module types, and cache the tables in `loaded`.
pub fn register_sandboxed(env: &mut GlobalEnv) -> (r: Result<(), LibError>)
    ensures
        r is Ok,
        forall|n: Seq<char>| #[trigger]
            final(env).global(n) == sandboxed_global(old(env).global(n), n),
        forall|n: Seq<char>|
            #[trigger] final(env).loaded(n) == if sandboxed_table(n) is Some {
                sandboxed_table(n)
            } else {
                old(env).loaded(n)
            },
        forall|n: Seq<char>| #[trigger]
            final(env).has_module_type(n) == (old(env).has_module_type(n) || n == "builtins"@
                || sandboxed_table(n) is Some),
        final(env).string_index() == Some(GlobalView::Table(seq![Module::String])),
        forall|n: Seq<char>| #[trigger]
            final(env).has_userdata_type(n) == old(env).has_userdata_type(n),
        final(env).package_path() == old(env).package_path(),
        final(env).has_module_loader() == old(env).has_module_loader(),
{
    let names: [&str; 18] = [
        "type",
        "typeof",
        "rawget",
        "rawset",
        "rawequal",
        "rawlen",
        "tonumber",
        "tostring",
        "next",
        "getmetatable",
        "setmetatable",
        "select",
        "error",
        "assert",
        "pairs",
        "ipairs",
        "print",
        "collectgarbage",
    ];
    assert(names@ == builtin_names());
    let ghost e0 = *env;
    set_functions(env, &names, Module::Builtins);
    env.register_module_type("builtins");
    let ghost e1 = *env;
    let _ = crate::bit32::register(env);
    let ghost ea = *env;
    let _ = crate::math_lib::register(env);
    let ghost eb = *env;
    let _ = crate::string_lib::register(env);
    let ghost ec = *env;
    install_module(env, "table", Module::Table);
    let ghost ed = *env;
    install_module(env, "utf8", Module::Utf8);
    let ghost e2 = *env;
    proof {
        lemma_table_names_distinct();
    }
    assert forall|n: Seq<char>| #[trigger] e2.global(n) == sandboxed_global(e0.global(n), n) by {
        assert(e1.global(n) == (if has_str(builtin_names(), n) {
            Some(GlobalView::Function(Module::Builtins))
        } else {
            e0.global(n)
        }));
        assert(ea.global(n) == (if n == "bit32"@ {
            Some(GlobalView::Table(seq![Module::Bit32]))
        } else {
            e1.global(n)
        }));
        assert(eb.global(n) == (if n == "math"@ {
            Some(GlobalView::Table(seq![Module::Math]))
        } else {
            ea.global(n)
        }));
        assert(ec.global(n) == (if n == "string"@ {
            Some(GlobalView::Table(seq![Module::String]))
        } else {
            eb.global(n)
        }));
        assert(ed.global(n) == (if n == "table"@ {
            Some(GlobalView::Table(seq![Module::Table]))
        } else {
            ec.global(n)
        }));
        assert(e2.global(n) == (if n == "utf8"@ {
            Some(GlobalView::Table(seq![Module::Utf8]))
        } else {
            ed.global(n)
        }));
    }
    let tables: [&str; 5] = ["bit32", "math", "string", "table", "utf8"];
    assert(tables@ == sandboxed_tables());
    proof {
        lemma_table_names();
    }
    cache_loaded(env, &tables);
    assert forall|n: Seq<char>|
        #[trigger] env.loaded(n) == if sandboxed_table(n) is Some {
            sandboxed_table(n)
        } else {
            e0.loaded(n)
        } by {
        assert(e2.loaded(n) == e0.loaded(n));
        if sandboxed_table(n) is Some {
            assert(has_str(tables@, n));
            assert(e2.global(n) == sandboxed_table(n));
        }
    }
    Ok(())
}

/// Install `load`, `loadfile` and `dofile` as global functions.
pub fn register_load(env: &mut GlobalEnv) -> (r: Result<(), LibError>)
    ensures
        r is Ok,
        forall|n: Seq<char>|
            #[trigger] final(env).global(n) == if has_str(load_names(), n) {
                Some(GlobalView::Function(Module::Load))
            } else {
                old(env).global(n)
            },
        forall|n: Seq<char>| #[trigger]
            final(env).has_module_type(n) == (old(env).has_module_type(n) || n == "builtins"@),
        same_rest(*old(env), *final(env)),
{
    let names: [&str; 3] = ["load", "loadfile", "dofile"];
    assert(names@ == load_names());
    set_functions(env, &names, Module::Load);
    env.register_module_type("builtins");
    Ok(())
}

/// Install all builtins and sandbox-safe libraries plus `os`, and cache
/// `os`, `io`, `coroutine`, `debug` and `package` in `loaded` where they
/// are bound.
pub fn register(env: &mut GlobalEnv) -> (r: Result<(), LibError>)
    ensures
        r is Ok,
        forall|n: Seq<char>|
            #[trigger] final(env).global(n) == if n == "os"@ {
                Some(GlobalView::Table(seq![Module::Os]))
            } else {
                sandboxed_global(old(env).global(n), n)
            },
        forall|n: Seq<char>|
            #[trigger] final(env).loaded(n) == if has_str(full_cached(), n) && final(env).global(
                n,
            ) is Some {
                final(env).global(n)
            } else if sandboxed_table(n) is Some {
                sandboxed_table(n)
            } else {
                old(env).loaded(n)
            },
        final(env).package_path() == old(env).package_path(),
        final(env).has_module_loader() == old(env).has_module_loader(),
{
    let _ = register_sandboxed(env);
    let _ = crate::os_lib::register(env);
    let names: [&str; 5] = ["os", "io", "coroutine", "debug", "package"];
    assert(names@ == full_cached());
    cache_loaded(env, &names);
    Ok(())
}

/// The names `register` caches in `loaded`.
pub open spec fn full_cached() -> Seq<&'static str> {
    seq!["os", "io", "coroutine", "debug", "package"]
}

// ---------------------------------------------------------------------------
// select
// ---------------------------------------------------------------------------

/// The first argument of `select`: a number, or a string (which must be
/// `"#"`).
#[derive(Debug)]
pub enum SelectIndex {
    Num(i64),
    Str(Vec<u8>),
}

/// What `select` returns: the number of the remaining arguments, or the
/// remaining arguments from a 0-based index on.
#[derive(Debug, Clone, Copy, PartialEq, Eq, Structural)]
pub enum Selected {
    Count(i64),
    From(usize),
}

/// `select(index, ...)` over `len` remaining arguments: `"#"` gives their
/// number; a positive `n` the arguments from the `n`-th on; a negative `n`
/// the last `-n` of them (all when `-n` exceeds their number); `0` and
/// other strings are bad arguments.
pub fn select(index: &SelectIndex, len: usize) -> (r: Result<Selected, LibError>)
    requires
        len <= i64::MAX,
    ensures
        match index {
            SelectIndex::Str(s) => if s@ == seq![35u8] {
                r == Ok::<Selected, LibError>(Selected::Count(len as i64))
            } else {
                r matches Err(e) && is_bad_argument_got(
                    e,
                    1,
                    "select"@,
                    "number or string \"#\""@,
                    "string"@,
                )
            },
            SelectIndex::Num(n) => if *n == 0 {
                r matches Err(e) && is_bad_argument_got(
                    e,
                    1,
                    "select"@,
                    "index out of range"@,
                    "0"@,
                )
            } else if *n < 0 {
                r == Ok::<Selected, LibError>(Selected::From((if len + *n < 0 {
                    0
                } else {
                    len + *n
                }) as usize))
            } else {
                r == Ok::<Selected, LibError>(Selected::From((if *n - 1 < len {
                    *n - 1
                } else {
                    len as int
                }) as usize))
            },
        },
{
    match index {
        SelectIndex::Str(s) => {
            if s.len() == 1 && s[0] == 35 {
                assert(s@ =~= seq![35u8]);
                Ok(Selected::Count(len as i64))
            } else {
                proof {
                    if s@ == seq![35u8] {
                        assert(s@.len() == 1 && s@[0] == 35);
                    }
                    reveal_strlit("string");
                }
                Err(bad_argument(1, "select", "number or string \"#\"", String::from_str("string")))
            }
        },
        SelectIndex::Num(n) => {
            let n = *n;
            if n == 0 {
                proof {
                    reveal_strlit("0");
                }
                Err(bad_argument(1, "select", "index out of range", String::from_str("0")))
            } else if n < 0 {
                let l = len as i64;
                if l + n < 0 {
                    Ok(Selected::From(0))
                } else {
                    Ok(Selected::From((l + n) as usize))
                }
            } else {
                if ((n - 1) as u64) < (len as u64) {
                    Ok(Selected::From((n - 1) as usize))
                } else {
                    Ok(Selected::From(len))
                }
            }
        },
    }
}

// ---------------------------------------------------------------------------
// tonumber with a base
// ---------------------------------------------------------------------------

/// The value of a digit byte in bases up to 36 (36 or more when it is no
/// digit).
pub open spec fn digit_value(b: u8) -> int {
    if 48 <= b <= 57 {
        b - 48
    } else if 97 <= b <= 122 {
        b - 87
    } else if 65 <= b <= 90 {
        b - 55
    } else {
        36
    }
}

/// Every byte is a digit of `base`.
pub open spec fn all_digits(d: Seq<u8>, base: int) -> bool {
    forall|k: int| 0 <= k < d.len() ==> #[trigger] digit_value(d[k]) < base
}

/// The value of the digits `d` in `base`.
pub open spec fn radix_value(d: Seq<u8>, base: int) -> int
    decreases d.len(),
{
    if d.len() == 0 {
        0
    } else {
        radix_value(d.drop_last(), base) * base + digit_value(d.last())
    }
}

/// The value of an optionally signed string of digits in `base`, when it
/// is one and fits in 64 bits.
pub open spec fn parse_radix(t: Seq<u8>, base: int) -> Option<int> {
    let neg = t.len() > 0 && t[0] == 45;
    let signed = t.len() > 0 && (t[0] == 45 || t[0] == 43);
    let d = if signed {
        t.subrange(1, t.len() as int)
    } else {
        t
    };
    if d.len() == 0 || !all_digits(d, base) {
        None
    } else {
        let v = if neg {
            -radix_value(d, base)
        } else {
            radix_value(d, base)
        };
        if i64::MIN <= v <= i64::MAX {
            Some(v)
        } else {
            None
        }
    }
}

proof fn lemma_radix_mono(d: Seq<u8>, base: int, j: int, k: int)
    requires
        0 <= j <= k <= d.len(),
        base >= 2,
        all_digits(d, base),
    ensures
        0 <= radix_value(d.subrange(0, j), base) <= radix_value(d.subrange(0, k), base),
    decreases k,
{
    if k > 0 {
        assert(d.subrange(0, k).drop_last() =~= d.subrange(0, k - 1));
        assert(digit_value(d[k - 1]) >= 0);
        if j < k {
            lemma_radix_mono(d, base, j, k - 1);
        } else {
            lemma_radix_mono(d, base, 0, k - 1);
        }
        let p = radix_value(d.subrange(0, k - 1), base);
        assert(p * base >= p) by (nonlinear_arith)
            requires
                p >= 0,
                base >= 2,
        ;
    }
}

fn digit_of(b: u8) -> (r: u8)
    ensures
        r as int == (if digit_value(b) > 36 {
            36
        } else {
            digit_value(b)
        }),
{
    if 48 <= b && b <= 57 {
        b - 48
    } else if 97 <= b && b <= 122 {
        b - 87
    } else if 65 <= b && b <= 90 {
        b - 55
    } else {
        36
    }
}

/// The integer written in `t` in `base`: an optional sign, then digits and
/// letters of the base in either case, fitting in 64 bits.
#[verifier::rlimit(40)]
fn parse_radix_bytes(t: &[u8], base: i64) -> (r: Option<i64>)
    requires
        2 <= base <= 36,
    ensures
        r == (match parse_radix(t@, base as int) {
            Some(v) => Some(v as i64),
            None => None::<i64>,
        }),
{
    let n = t.len();
    let ghost tv = t@;
    let neg = n > 0 && t[0] == 45;
    let signed = n > 0 && (t[0] == 45 || t[0] == 43);
    let start: usize = if signed {
        1
    } else {
        0
    };
    let ghost d = if signed {
        tv.subrange(1, tv.len() as int)
    } else {
        tv
    };
    assert(d == tv.subrange(start as int, n as int));
    if start >= n {
        assert(d.len() == 0);
        return None;
    }
    let mut k = start;
    while k < n
        invariant
            start <= k <= n,
            n == tv.len(),
            tv == t@,
            d == tv.subrange(start as int, n as int),
            forall|m: int| 0 <= m < k - start ==> #[trigger] digit_value(d[m]) < base,
            neg == (tv.len() > 0 && tv[0] == 45),
            signed == (tv.len() > 0 && (tv[0] == 45 || tv[0] == 43)),
            d == (if signed {
                tv.subrange(1, tv.len() as int)
            } else {
                tv
            }),
            2 <= base <= 36,
        decreases n - k,
    {
        let dv = digit_of(t[k]);
        assert(d[k - start] == t@[k as int]);
        if (dv as i64) >= base {
            assert(digit_value(d[k - start]) >= base);
            assert(!all_digits(d, base as int));
            return None;
        }
        k = k + 1;
    }
    assert(all_digits(d, base as int));
    let mut acc: i64 = 0;
    let mut k = start;
    while k < n
        invariant
            start <= k <= n,
            n == tv.len(),
            tv == t@,
            2 <= base <= 36,
            d == tv.subrange(start as int, n as int),
            all_digits(d, base as int),
            neg == (tv.len() > 0 && tv[0] == 45),
            signed == (tv.len() > 0 && (tv[0] == 45 || tv[0] == 43)),
            d == (if signed {
                tv.subrange(1, tv.len() as int)
            } else {
                tv
            }),
            d.len() > 0,
            acc as int == (if neg {
                -radix_value(d.subrange(0, k - start), base as int)
            } else {
                radix_value(d.subrange(0, k - start), base as int)
            }),
        decreases n - k,
    {
        assert(d.subrange(0, k - start + 1).drop_last() =~= d.subrange(0, k - start));
        assert(d[k - start] == t@[k as int]);
        let dv = digit_of(t[k]) as i64;
        proof {
            lemma_radix_mono(d, base as int, k - start + 1, d.len() as int);
            assert(d.subrange(0, d.len() as int) =~= d);
        }
        let ghost pv = radix_value(d.subrange(0, k - start), base as int);
        let ghost nv = radix_value(d.subrange(0, k - start + 1), base as int);
        let ghost fv = radix_value(d, base as int);
        proof {
            lemma_radix_mono(d, base as int, k - start, k - start);
            assert(nv == pv * base + digit_value(d[k - start]));
            assert(0 <= digit_value(d[k - start]) < base);
            assert(dv == digit_value(d[k - start]));
            assert(pv >= 0 && nv <= fv);
            assert((-pv) * base == -(pv * base)) by (nonlinear_arith);
        }
        let step = acc.checked_mul(base);
        match step {
            None => {
                proof {
                    assert(acc * base < i64::MIN || acc * base > i64::MAX);
                    if neg {
                        assert(acc == -pv);
                        assert(pv * base > -(i64::MIN as int));
                    } else {
                        assert(acc == pv);
                        assert(pv * base > i64::MAX);
                    }
                }
                return None;
            },
            Some(m) => {
                let next = if neg {
                    m.checked_sub(dv)
                } else {
                    m.checked_add(dv)
                };
                match next {
                    None => {
                        proof {
                            if neg {
                                assert(m - dv < i64::MIN);
                                assert(-nv < i64::MIN);
                            } else {
                                assert(m + dv > i64::MAX);
                                assert(nv > i64::MAX);
                            }
                        }
                        return None;
                    },
                    Some(v) => {
                        acc = v;
                    },
                }
            },
        }
        k = k + 1;
    }
    assert(d.subrange(0, n - start) =~= d);
    Some(acc)
}

/// The text without leading and trailing white space.
pub open spec fn trimmed_chars(t: Seq<char>) -> Seq<char> {
    let a = trim_front(t, 0, t.len() as int);
    t.subrange(a, trim_back(t, a, t.len() as int))
}

/// The bytes of the text, when every character is ASCII.
pub open spec fn ascii_of(t: Seq<char>) -> Option<Seq<u8>> {
    if forall|i: int| 0 <= i < t.len() ==> (#[trigger] t[i] as u32) < 128 {
        Some(t.map_values(|c: char| c as u8))
    } else {
        None
    }
}

/// `tonumber(s, base)` for a string and a base in `[2, 36]`: the text of
/// `s` (invalid UTF-8 replaced) without surrounding white space, read as
/// an optionally signed integer in `base`; `None` when it is not one.
pub fn tonumber_base(s: &[u8], base: i64) -> (r: Option<i64>)
    requires
        2 <= base <= 36,
    ensures
        r == (match ascii_of(trimmed_chars(utf8_lossy(s@))) {
            Some(b) => match parse_radix(b, base as int) {
                Some(v) => Some(v as i64),
                None => None::<i64>,
            },
            None => None::<i64>,
        }),
{
    let text = lossy_text(s);
    let st = text.as_str();
    let ghost t = st@;
    let n = st.unicode_len();
    let mut a: usize = 0;
    while a < n && is_space(st.get_char(a))
        invariant
            n == t.len(),
            t == st@,
            a <= n,
            trim_front(t, a as int, n as int) == trim_front(t, 0, n as int),
        decreases n - a,
    {
        a = a + 1;
    }
    let mut b: usize = n;
    while b > a && is_space(st.get_char(b - 1))
        invariant
            n == t.len(),
            t == st@,
            a <= b <= n,
            trim_back(t, a as int, b as int) == trim_back(t, a as int, n as int),
        decreases b,
    {
        b = b - 1;
    }
    let ghost tt = t.subrange(a as int, b as int);
    assert(tt == trimmed_chars(t));
    let mut bytes: Vec<u8> = Vec::new();
    let mut k = a;
    while k < b
        invariant
            n == t.len(),
            t == st@,
            a <= k <= b <= n,
            tt == t.subrange(a as int, b as int),
            tt == trimmed_chars(t),
            t == utf8_lossy(s@),
            2 <= base <= 36,
            bytes@ == t.subrange(a as int, k as int).map_values(|c: char| c as u8),
            forall|i: int| a <= i < k ==> (#[trigger] t[i] as u32) < 128,
        decreases b - k,
    {
        let c = st.get_char(k);
        if (c as u32) >= 128 {
            assert((tt[k - a] as u32) >= 128);
            assert(ascii_of(tt) is None);
            return None;
        }
        bytes.push(c as u8);
        k = k + 1;
        assert(bytes@ =~= t.subrange(a as int, k as int).map_values(|c: char| c as u8));
    }
    assert(forall|i: int| 0 <= i < tt.len() ==> (#[trigger] tt[i] as u32) < 128 && tt[i] == t[i + a]);
    assert(ascii_of(tt) == Some(bytes@));
    parse_radix_bytes(bytes.as_slice(), base)
}

} // verus!
