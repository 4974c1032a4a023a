//! The selection of standard libraries to register, as bit flags, and its
//! parsing from a comma-separated list of names.
use vstd::prelude::*;

verus! {

/// A set of standard libraries, as bit flags.
#[derive(Debug, Clone, Copy, PartialEq, Eq, Structural)]
pub struct Libraries {
    pub bits: u32,
}

/// Flag bits of the individual libraries.
pub const BUILTINS_BIT: u32 = 1;
pub const OS_BIT: u32 = 2;
pub const IO_BIT: u32 = 4;
pub const STDIO_BIT: u32 = 8;
pub const EXEC_BIT: u32 = 16;
pub const ENV_BIT: u32 = 32;
pub const EXIT_BIT: u32 = 64;
pub const DEBUG_BIT: u32 = 128;
pub const PACKAGE_BIT: u32 = 256;
pub const LOAD_BIT: u32 = 512;
pub const TASK_BIT: u32 = 1024;
pub const REGEX_BIT: u32 = 2048;
/// Everything but debug introspection.
pub const ALL_BITS: u32 = 3967;
/// Core globals and `regex`.
pub const SANDBOXED_BITS: u32 = 2049;

#[allow(non_snake_case)]
impl Libraries {
    /// No library.
    pub fn empty() -> (r: Libraries)
        ensures
            r.bits == 0,
    {
        Libraries { bits: 0 }
    }

    /// Core globals (`print`, `type`, `pcall`, ...) plus `math`, `string`,
    /// `table`, `utf8` and `bit32`.
    pub fn BUILTINS() -> (r: Libraries)
        ensures
            r.bits == BUILTINS_BIT,
    {
        Libraries { bits: BUILTINS_BIT }
    }

    /// The `os` library.
    pub fn OS() -> (r: Libraries)
        ensures
            r.bits == OS_BIT,
    {
        Libraries { bits: OS_BIT }
    }

    /// File I/O plus the filesystem part of `os`.
    pub fn IO() -> (r: Libraries)
        ensures
            r.bits == IO_BIT,
    {
        Libraries { bits: IO_BIT }
    }

    /// The standard input and output handles.
    pub fn STDIO() -> (r: Libraries)
        ensures
            r.bits == STDIO_BIT,
    {
        Libraries { bits: STDIO_BIT }
    }

    /// Process execution: `io.popen` and `os.execute`.
    pub fn EXEC() -> (r: Libraries)
        ensures
            r.bits == EXEC_BIT,
    {
        Libraries { bits: EXEC_BIT }
    }

    /// Environment variables: `os.getenv`.
    pub fn ENV() -> (r: Libraries)
        ensures
            r.bits == ENV_BIT,
    {
        Libraries { bits: ENV_BIT }
    }

    /// Process termination: `os.exit`.
    pub fn EXIT() -> (r: Libraries)
        ensures
            r.bits == EXIT_BIT,
    {
        Libraries { bits: EXIT_BIT }
    }

    /// Frame and upvalue introspection in `debug`.
    pub fn DEBUG() -> (r: Libraries)
        ensures
            r.bits == DEBUG_BIT,
    {
        Libraries { bits: DEBUG_BIT }
    }

    /// File-based `require`.
    pub fn PACKAGE() -> (r: Libraries)
        ensures
            r.bits == PACKAGE_BIT,
    {
        Libraries { bits: PACKAGE_BIT }
    }

    /// The `load` family of functions.
    pub fn LOAD() -> (r: Libraries)
        ensures
            r.bits == LOAD_BIT,
    {
        Libraries { bits: LOAD_BIT }
    }

    /// The concurrent task library.
    pub fn TASK() -> (r: Libraries)
        ensures
            r.bits == TASK_BIT,
    {
        Libraries { bits: TASK_BIT }
    }

    /// The `regex` library.
    pub fn REGEX() -> (r: Libraries)
        ensures
            r.bits == REGEX_BIT,
    {
        Libraries { bits: REGEX_BIT }
    }

    /// Everything except debug introspection.
    pub fn ALL() -> (r: Libraries)
        ensures
            r.bits == ALL_BITS,
    {
        Libraries { bits: ALL_BITS }
    }

    /// The sandbox-safe subset: core globals and `regex`.
    pub fn SANDBOXED() -> (r: Libraries)
        ensures
            r.bits == SANDBOXED_BITS,
    {
        Libraries { bits: SANDBOXED_BITS }
    }

    /// Every library of `other` is in `self`.
    pub open spec fn has(self, other: Libraries) -> bool {
        self.bits & other.bits == other.bits
    }

    /// Whether every library of `other` is in `self`.
    pub fn contains(&self, other: Libraries) -> (r: bool)
        ensures
            r == self.has(other),
    {
        self.bits & other.bits == other.bits
    }

    /// The libraries of both sets.
    pub fn union(&self, other: Libraries) -> (r: Libraries)
        ensures
            r.bits == self.bits | other.bits,
    {
        Libraries { bits: self.bits | other.bits }
    }

    /// Whether the set is empty.
    pub fn is_empty(&self) -> (r: bool)
        ensures
            r == (self.bits == 0),
    {
        self.bits == 0
    }
}

/// `ALL` is the union of every library but `DEBUG`.
pub proof fn law_all_is_union_without_debug()
    ensures
        ALL_BITS == BUILTINS_BIT | OS_BIT | IO_BIT | STDIO_BIT | EXEC_BIT | ENV_BIT | EXIT_BIT
            | PACKAGE_BIT | LOAD_BIT | TASK_BIT | REGEX_BIT,
        ALL_BITS & DEBUG_BIT == 0,
        SANDBOXED_BITS == BUILTINS_BIT | REGEX_BIT,
{
    assert(3967u32 == 1u32 | 2u32 | 4u32 | 8u32 | 16u32 | 32u32 | 64u32 | 256u32 | 512u32 | 1024u32
        | 2048u32) by (bit_vector);
    assert(3967u32 & 128u32 == 0u32) by (bit_vector);
    assert(2049u32 == 1u32 | 2048u32) by (bit_vector);
}

// ---------------------------------------------------------------------------
// Parsing
// ---------------------------------------------------------------------------

/// ASCII upper-case letters to lower case.
pub open spec fn lower_char(c: char) -> char {
    if 'A' <= c <= 'Z' {
        ((c as u32) + 32) as char
    } else {
        c
    }
}

/// A character that `trim` removes: one with the Unicode White_Space
/// property.
pub open spec fn is_space_char(c: char) -> bool {
    let u = c as u32;
    (0x09 <= u && u <= 0x0d) || u == 0x20 || u == 0x85 || u == 0xa0 || u == 0x1680 || (0x2000 <= u
        && u <= 0x200a) || u == 0x2028 || u == 0x2029 || u == 0x202f || u == 0x205f || u == 0x3000
}

/// The first index at or after `i` holding a comma (or the length).
pub open spec fn next_comma(s: Seq<char>, i: int) -> int
    decreases s.len() - i,
{
    if i < 0 || i >= s.len() || s[i] == ',' {
        i
    } else {
        next_comma(s, i + 1)
    }
}

/// The start of `s[a..b]` without leading white space.
pub open spec fn trim_front(s: Seq<char>, a: int, b: int) -> int
    decreases b - a,
{
    if a < b && is_space_char(s[a]) {
        trim_front(s, a + 1, b)
    } else {
        a
    }
}

/// The end of `s[a..b]` without trailing white space.
pub open spec fn trim_back(s: Seq<char>, a: int, b: int) -> int
    decreases b - a,
{
    if a < b && is_space_char(s[b - 1]) {
        trim_back(s, a, b - 1)
    } else {
        b
    }
}

/// The lower-cased name `n`.
pub open spec fn lower_name(n: Seq<char>) -> Seq<char> {
    n.map_values(|c: char| lower_char(c))
}

/// The flags named by a lower-case library name, if it is one.
pub open spec fn flag_of(name: Seq<char>) -> Option<u32> {
    if name == "builtins"@ {
        Some(BUILTINS_BIT)
    } else if name == "os"@ {
        Some(OS_BIT)
    } else if name == "io"@ {
        Some(IO_BIT)
    } else if name == "stdio"@ {
        Some(STDIO_BIT)
    } else if name == "exec"@ {
        Some(EXEC_BIT)
    } else if name == "env"@ {
        Some(ENV_BIT)
    } else if name == "exit"@ {
        Some(EXIT_BIT)
    } else if name == "debug"@ {
        Some(DEBUG_BIT)
    } else if name == "package"@ {
        Some(PACKAGE_BIT)
    } else if name == "load"@ {
        Some(LOAD_BIT)
    } else if name == "task"@ {
        Some(TASK_BIT)
    } else if name == "regex"@ {
        Some(REGEX_BIT)
    } else if name == "all"@ {
        Some(ALL_BITS)
    } else if name == "sandboxed"@ {
        Some(SANDBOXED_BITS)
    } else {
        None
    }
}

/// The name of the comma-separated part starting at `i`: trimmed and
/// lower-cased.
pub open spec fn part_name(s: Seq<char>, i: int) -> Seq<char> {
    let e = next_comma(s, i);
    let a = trim_front(s, i, e);
    let b = trim_back(s, a, e);
    lower_name(s.subrange(a, b))
}

/// Parse the parts from index `i` on into `acc`: empty parts are skipped,
/// an unknown name is an error carrying the (lower-cased) name.
pub open spec fn parse_from(s: Seq<char>, i: int, acc: u32) -> Result<u32, Seq<char>>
    decreases s.len() - i,
{
    if i < 0 || i > s.len() {
        Ok(acc)
    } else {
        let name = part_name(s, i);
        let e = next_comma(s, i);
        let acc2 = if name.len() == 0 {
            Ok(acc)
        } else {
            match flag_of(name) {
                Some(f) => Ok(acc | f),
                None => Err(name),
            }
        };
        match acc2 {
            Err(n) => Err(n),
            Ok(a) => if i <= e < s.len() {
                parse_from(s, e + 1, a)
            } else {
                Ok(a)
            },
        }
    }
}

/// The message for an unknown library name.
pub open spec fn unknown_library_message(name: Seq<char>) -> Seq<char> {
    "unknown library: '"@ + name + "'"@
}

proof fn lemma_next_comma(s: Seq<char>, i: int)
    requires
        0 <= i <= s.len(),
    ensures
        i <= next_comma(s, i) <= s.len(),
        next_comma(s, i) < s.len() ==> s[next_comma(s, i)] == ',',
        forall|k: int| i <= k < next_comma(s, i) ==> s[k] != ',',
    decreases s.len() - i,
{
    if i < s.len() && s[i] != ',' {
        lemma_next_comma(s, i + 1);
    }
}

proof fn lemma_trim_front(s: Seq<char>, a: int, b: int)
    requires
        a <= b,
    ensures
        a <= trim_front(s, a, b) <= b,
    decreases b - a,
{
    if a < b && is_space_char(s[a]) {
        lemma_trim_front(s, a + 1, b);
    }
}

proof fn lemma_trim_back(s: Seq<char>, a: int, b: int)
    requires
        a <= b,
    ensures
        a <= trim_back(s, a, b) <= b,
    decreases b - a,
{
    if a < b && is_space_char(s[b - 1]) {
        lemma_trim_back(s, a, b - 1);
    }
}

pub(crate) fn is_space(c: char) -> (r: bool)
    ensures
        r == is_space_char(c),
{
    let u = c as u32;
    (0x09 <= u && u <= 0x0d) || u == 0x20 || u == 0x85 || u == 0xa0 || u == 0x1680 || (0x2000 <= u
        && u <= 0x200a) || u == 0x2028 || u == 0x2029 || u == 0x202f || u == 0x205f || u == 0x3000
}

/// The lower-case text of one character of `s`.
fn lower_char_str<'a>(s: &'a str, k: usize) -> (r: &'a str)
    requires
        k < s@.len() <= usize::MAX,
    ensures
        r@ == seq![lower_char(s@[k as int])],
{
    let c = s.get_char(k);
    proof {
        reveal_strlit("a");
        reveal_strlit("b");
        reveal_strlit("c");
        reveal_strlit("d");
        reveal_strlit("e");
        reveal_strlit("f");
        reveal_strlit("g");
        reveal_strlit("h");
        reveal_strlit("i");
        reveal_strlit("j");
        reveal_strlit("k");
        reveal_strlit("l");
        reveal_strlit("m");
        reveal_strlit("n");
        reveal_strlit("o");
        reveal_strlit("p");
        reveal_strlit("q");
        reveal_strlit("r");
        reveal_strlit("s");
        reveal_strlit("t");
        reveal_strlit("u");
        reveal_strlit("v");
        reveal_strlit("w");
        reveal_strlit("x");
        reveal_strlit("y");
        reveal_strlit("z");
    }
    let r = match c {
        'A' => "a",
        'B' => "b",
        'C' => "c",
        'D' => "d",
        'E' => "e",
        'F' => "f",
        'G' => "g",
        'H' => "h",
        'I' => "i",
        'J' => "j",
        'K' => "k",
        'L' => "l",
        'M' => "m",
        'N' => "n",
        'O' => "o",
        'P' => "p",
        'Q' => "q",
        'R' => "r",
        'S' => "s",
        'T' => "t",
        'U' => "u",
        'V' => "v",
        'W' => "w",
        'X' => "x",
        'Y' => "y",
        'Z' => "z",
        _ => s.substring_char(k, k + 1),
    };
    assert(r@ =~= seq![lower_char(s@[k as int])]);
    r
}

/// The lower-cased text of `s[a..b]`.
fn lower_text(s: &str, a: usize, b: usize) -> (r: String)
    requires
        a <= b <= s@.len() <= usize::MAX,
    ensures
        r@ == lower_name(s@.subrange(a as int, b as int)),
{
    let mut out = String::new();
    let mut k = a;
    while k < b
        invariant
            a <= k <= b <= s@.len() <= usize::MAX,
            out@ =~= lower_name(s@.subrange(a as int, k as int)),
        decreases b - k,
    {
        let piece = lower_char_str(s, k);
        out.append(piece);
        proof {
            assert(s@.subrange(a as int, k + 1) =~= s@.subrange(a as int, k as int).push(
                s@[k as int],
            ));
        }
        k = k + 1;
    }
    out
}

/// The flags of a known lower-case library name.
fn lookup_flag(name: &String) -> (r: Option<u32>)
    ensures
        r == flag_of(name@),
{
    let names: [&str; 14] = [
        "builtins",
        "os",
        "io",
        "stdio",
        "exec",
        "env",
        "exit",
        "debug",
        "package",
        "load",
        "task",
        "regex",
        "all",
        "sandboxed",
    ];
    let flags: [u32; 14] = [
        BUILTINS_BIT,
        OS_BIT,
        IO_BIT,
        STDIO_BIT,
        EXEC_BIT,
        ENV_BIT,
        EXIT_BIT,
        DEBUG_BIT,
        PACKAGE_BIT,
        LOAD_BIT,
        TASK_BIT,
        REGEX_BIT,
        ALL_BITS,
        SANDBOXED_BITS,
    ];
    let mut k: usize = 0;
    while k < 14
        invariant
            k <= 14,
            names@ == seq![
                "builtins",
                "os",
                "io",
                "stdio",
                "exec",
                "env",
                "exit",
                "debug",
                "package",
                "load",
                "task",
                "regex",
                "all",
                "sandboxed",
            ],
            flags@ == seq![
                BUILTINS_BIT,
                OS_BIT,
                IO_BIT,
                STDIO_BIT,
                EXEC_BIT,
                ENV_BIT,
                EXIT_BIT,
                DEBUG_BIT,
                PACKAGE_BIT,
                LOAD_BIT,
                TASK_BIT,
                REGEX_BIT,
                ALL_BITS,
                SANDBOXED_BITS,
            ],
            forall|j: int| 0 <= j < k ==> name@ != (#[trigger] names@[j])@,
        decreases 14 - k,
    {
        let candidate = String::from_str(names[k]);
        if *name == candidate {
            return Some(flags[k]);
        }
        k = k + 1;
    }
    None
}

/// Parse a comma-separated list of library names (case-insensitive, white
/// space around names ignored, empty parts skipped).  An unknown name is an
/// error `unknown library: '<name>'`.
pub fn parse_libraries(s: &str) -> (r: Result<Libraries, String>)
    ensures
        match parse_from(s@, 0, 0) {
            Ok(bits) => r matches Ok(l) && l.bits == bits,
            Err(name) => r matches Err(m) && m@ == unknown_library_message(name),
        },
{
    let n = s.unicode_len();
    let mut acc: u32 = 0;
    let mut i: usize = 0;
    loop
        invariant
            n == s@.len(),
            i <= n,
            parse_from(s@, i as int, acc) == parse_from(s@, 0, 0),
        decreases n - i,
    {
        let mut e = i;
        while e < n && s.get_char(e) != ','
            invariant
                i <= e <= n,
                n == s@.len(),
                next_comma(s@, e as int) == next_comma(s@, i as int),
            decreases n - e,
        {
            e = e + 1;
        }
        proof {
            lemma_next_comma(s@, i as int);
        }
        let mut a = i;
        while a < e && is_space(s.get_char(a))
            invariant
                i <= a <= e <= n,
                n == s@.len(),
                trim_front(s@, a as int, e as int) == trim_front(s@, i as int, e as int),
            decreases e - a,
        {
            a = a + 1;
        }
        let mut b = e;
        while b > a && is_space(s.get_char(b - 1))
            invariant
                a <= b <= e <= n,
                n == s@.len(),
                trim_back(s@, a as int, b as int) == trim_back(s@, a as int, e as int),
            decreases b - a,
        {
            b = b - 1;
        }
        if a < b {
            let name = lower_text(s, a, b);
            match lookup_flag(&name) {
                Some(f) => {
                    acc = acc | f;
                },
                None => {
                    proof {
                        reveal_strlit("unknown library: '");
                        reveal_strlit("'");
                    }
                    let mut msg = String::from_str("unknown library: '");
                    msg.append(name.as_str());
                    msg.append("'");
                    return Err(msg);
                },
            }
        }
        if e >= n {
            return Ok(Libraries { bits: acc });
        }
        i = e + 1;
    }
}

impl std::str::FromStr for Libraries {
    type Err = String;

    /// Parse a comma-separated list of library names (see
    /// `parse_libraries`).
    fn from_str(s: &str) -> Result<Libraries, String> {
        parse_libraries(s)
    }
}

} // verus!
