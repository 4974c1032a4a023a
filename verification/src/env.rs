//! The global environment that the standard libraries are registered into.
//!
//! A library is installed as a global table holding the functions of one
//! or more library modules (several modules can be merged into one table,
//! as the file-system, exec and environment parts of `os` are); the core
//! builtins are installed as global functions.  Besides the globals, the
//! environment records the `loaded` cache used by `require`, the module
//! and userdata types registered for documentation, the table behind the
//! string metatable's `__index`, the `package.path` and whether
//! file-based module loading is enabled.
use vstd::prelude::*;

verus! {

/// The library modules whose functions registration installs.
#[derive(Debug, Clone, Copy, PartialEq, Eq, Structural)]
pub enum Module {
    /// Core globals: `type`, `print`, `pairs`, ...
    Builtins,
    /// `load`, `loadfile`, `dofile`.
    Load,
    Bit32,
    Math,
    String,
    Table,
    Utf8,
    /// Clock and calendar functions of `os`.
    Os,
    /// `os.remove`, `os.rename`, `os.tmpname`.
    OsFs,
    /// `os.execute`.
    OsExec,
    /// `os.getenv`.
    OsEnv,
    /// `os.exit`.
    OsExit,
    /// File functions of `io`.
    Io,
    /// Standard handles and `io.read`/`io.write`/...
    IoStdio,
    /// `io.popen`.
    IoPopen,
    /// `debug.traceback`, `debug.info`, `debug.getinfo`, `debug.pretty_print`.
    Debug,
    /// `debug.getlocal`, `debug.getupvalue`, `debug.setupvalue`, `debug.upvalueid`.
    DebugIntrospection,
    /// `debug.traceback` alone.
    DebugTraceback,
    Regex,
    Shlex,
    Process,
    Task,
}

/// A global value installed by registration.
#[derive(Debug)]
pub enum GlobalValue {
    /// A library table holding the functions of the modules, in the order
    /// they were merged in.
    Table(Vec<Module>),
    /// A global function of a module.
    Function(Module),
}

/// The meaning of a global value.
pub enum GlobalView {
    Table(Seq<Module>),
    Function(Module),
}

impl View for GlobalValue {
    type V = GlobalView;

    open spec fn view(&self) -> GlobalView {
        match self {
            GlobalValue::Table(m) => GlobalView::Table(m@),
            GlobalValue::Function(f) => GlobalView::Function(*f),
        }
    }
}

/// A copy of a global value.
pub fn copy_value(v: &GlobalValue) -> (r: GlobalValue)
    ensures
        r@ == v@,
{
    match v {
        GlobalValue::Table(mods) => {
            let mut out: Vec<Module> = Vec::new();
            let mut k: usize = 0;
            while k < mods.len()
                invariant
                    k <= mods@.len(),
                    out@ == mods@.subrange(0, k as int),
                decreases mods@.len() - k,
            {
                out.push(mods[k]);
                proof {
                    assert(mods@.subrange(0, k + 1) =~= mods@.subrange(0, k as int).push(
                        mods@[k as int],
                    ));
                }
                k = k + 1;
            }
            assert(mods@.subrange(0, mods@.len() as int) =~= mods@);
            GlobalValue::Table(out)
        },
        GlobalValue::Function(f) => GlobalValue::Function(*f),
    }
}

/// The value bound to `name` by the latest binding in `entries`.
pub open spec fn lookup(entries: Seq<(String, GlobalValue)>, name: Seq<char>) -> Option<GlobalView>
    decreases entries.len(),
{
    if entries.len() == 0 {
        None
    } else if entries.last().0@ == name {
        Some(entries.last().1@)
    } else {
        lookup(entries.drop_last(), name)
    }
}

/// Is `name` among `names`?
pub open spec fn has_name(names: Seq<String>, name: Seq<char>) -> bool {
    exists|k: int| 0 <= k < names.len() && (#[trigger] names[k])@ == name
}

/// The global environment.
pub struct GlobalEnv {
    globals: Vec<(String, GlobalValue)>,
    loaded: Vec<(String, GlobalValue)>,
    module_types: Vec<String>,
    userdata_types: Vec<String>,
    string_index: Option<GlobalValue>,
    package_path: Option<String>,
    module_loader: bool,
}

/// The binding of `name` among `entries`, searching from the latest.
fn find_entry(entries: &Vec<(String, GlobalValue)>, name: &str) -> (r: Option<GlobalValue>)
    ensures
        match r {
            Some(v) => lookup(entries@, name@) == Some(v@),
            None => lookup(entries@, name@) is None,
        },
{
    let key = String::from_str(name);
    let mut i = entries.len();
    assert(entries@.subrange(0, i as int) =~= entries@);
    while i > 0
        invariant
            i <= entries@.len(),
            key@ == name@,
            lookup(entries@.subrange(0, i as int), name@) == lookup(entries@, name@),
        decreases i,
    {
        proof {
            assert(entries@.subrange(0, i as int).drop_last() =~= entries@.subrange(0, i - 1));
        }
        if entries[i - 1].0 == key {
            return Some(copy_value(&entries[i - 1].1));
        }
        i = i - 1;
    }
    None
}

/// Is `name` among `names`?
fn find_name(names: &Vec<String>, name: &str) -> (r: bool)
    ensures
        r == has_name(names@, name@),
{
    let key = String::from_str(name);
    let mut i: usize = 0;
    while i < names.len()
        invariant
            i <= names@.len(),
            key@ == name@,
            forall|k: int| 0 <= k < i ==> (#[trigger] names@[k])@ != name@,
        decreases names@.len() - i,
    {
        if names[i] == key {
            return true;
        }
        i = i + 1;
    }
    false
}

impl GlobalEnv {
    /// The value of the global `name`.
    pub closed spec fn global(&self, name: Seq<char>) -> Option<GlobalView> {
        lookup(self.globals@, name)
    }

    /// The value cached for `require(name)`.
    pub closed spec fn loaded(&self, name: Seq<char>) -> Option<GlobalView> {
        lookup(self.loaded@, name)
    }

    /// Has a module type been registered under `name`?
    pub closed spec fn has_module_type(&self, name: Seq<char>) -> bool {
        has_name(self.module_types@, name)
    }

    /// Has a userdata type been registered under `name`?
    pub closed spec fn has_userdata_type(&self, name: Seq<char>) -> bool {
        has_name(self.userdata_types@, name)
    }

    /// The table behind the string metatable's `__index`.
    pub closed spec fn string_index(&self) -> Option<GlobalView> {
        match self.string_index {
            Some(v) => Some(v@),
            None => None,
        }
    }

    /// The `package.path` used by file-based `require`.
    pub closed spec fn package_path(&self) -> Option<Seq<char>> {
        match self.package_path {
            Some(p) => Some(p@),
            None => None,
        }
    }

    /// Is file-based module loading enabled?
    pub closed spec fn has_module_loader(&self) -> bool {
        self.module_loader
    }

    /// An empty environment.
    pub fn new() -> (r: GlobalEnv)
        ensures
            forall|n: Seq<char>| #[trigger] r.global(n) is None,
            forall|n: Seq<char>| #[trigger] r.loaded(n) is None,
            forall|n: Seq<char>| !#[trigger] r.has_module_type(n),
            forall|n: Seq<char>| !#[trigger] r.has_userdata_type(n),
            r.string_index() is None,
            r.package_path() is None,
            !r.has_module_loader(),
    {
        GlobalEnv {
            globals: Vec::new(),
            loaded: Vec::new(),
            module_types: Vec::new(),
            userdata_types: Vec::new(),
            string_index: None,
            package_path: None,
            module_loader: false,
        }
    }

    /// The value of the global `name`, if set.
    pub fn get_global(&self, name: &str) -> (r: Option<GlobalValue>)
        ensures
            match r {
                Some(v) => self.global(name@) == Some(v@),
                None => self.global(name@) is None,
            },
    {
        find_entry(&self.globals, name)
    }

    /// The value cached for `require(name)`, if any.
    pub fn get_loaded(&self, name: &str) -> (r: Option<GlobalValue>)
        ensures
            match r {
                Some(v) => self.loaded(name@) == Some(v@),
                None => self.loaded(name@) is None,
            },
    {
        find_entry(&self.loaded, name)
    }

    /// Whether a module type is registered under `name`.
    pub fn module_type_registered(&self, name: &str) -> (r: bool)
        ensures
            r == self.has_module_type(name@),
    {
        find_name(&self.module_types, name)
    }

    /// Whether a userdata type is registered under `name`.
    pub fn userdata_type_registered(&self, name: &str) -> (r: bool)
        ensures
            r == self.has_userdata_type(name@),
    {
        find_name(&self.userdata_types, name)
    }

    /// Whether file-based module loading is enabled.
    pub fn module_loader_enabled(&self) -> (r: bool)
        ensures
            r == self.has_module_loader(),
    {
        self.module_loader
    }

    /// Bind the global `name` to `v`.
    pub fn set_global(&mut self, name: &str, v: GlobalValue)
        ensures
            forall|n: Seq<char>|
                #[trigger] final(self).global(n) == if n == name@ {
                    Some(v@)
                } else {
                    old(self).global(n)
                },
            forall|n: Seq<char>| #[trigger] final(self).loaded(n) == old(self).loaded(n),
            forall|n: Seq<char>| #[trigger]
                final(self).has_module_type(n) == old(self).has_module_type(n),
            forall|n: Seq<char>| #[trigger]
                final(self).has_userdata_type(n) == old(self).has_userdata_type(n),
            final(self).string_index() == old(self).string_index(),
            final(self).package_path() == old(self).package_path(),
            final(self).has_module_loader() == old(self).has_module_loader(),
    {
        let ghost before = self.globals@;
        self.globals.push((String::from_str(name), v));
        proof {
            assert(self.globals@.drop_last() =~= before);
        }
    }

    /// Cache `v` for `require(name)`.
    pub fn set_loaded(&mut self, name: &str, v: GlobalValue)
        ensures
            forall|n: Seq<char>|
                #[trigger] final(self).loaded(n) == if n == name@ {
                    Some(v@)
                } else {
                    old(self).loaded(n)
                },
            forall|n: Seq<char>| #[trigger] final(self).global(n) == old(self).global(n),
            forall|n: Seq<char>| #[trigger]
                final(self).has_module_type(n) == old(self).has_module_type(n),
            forall|n: Seq<char>| #[trigger]
                final(self).has_userdata_type(n) == old(self).has_userdata_type(n),
            final(self).string_index() == old(self).string_index(),
            final(self).package_path() == old(self).package_path(),
            final(self).has_module_loader() == old(self).has_module_loader(),
    {
        let ghost before = self.loaded@;
        self.loaded.push((String::from_str(name), v));
        proof {
            assert(self.loaded@.drop_last() =~= before);
        }
    }

    /// Record the type information of the module `name`.
    pub fn register_module_type(&mut self, name: &str)
        ensures
            forall|n: Seq<char>| #[trigger]
                final(self).has_module_type(n) == (old(self).has_module_type(n) || n == name@),
            forall|n: Seq<char>| #[trigger] final(self).global(n) == old(self).global(n),
            forall|n: Seq<char>| #[trigger] final(self).loaded(n) == old(self).loaded(n),
            forall|n: Seq<char>| #[trigger]
                final(self).has_userdata_type(n) == old(self).has_userdata_type(n),
            final(self).string_index() == old(self).string_index(),
            final(self).package_path() == old(self).package_path(),
            final(self).has_module_loader() == old(self).has_module_loader(),
    {
        let ghost before = self.module_types@;
        self.module_types.push(String::from_str(name));
        proof {
            assert forall|n: Seq<char>| #[trigger]
                has_name(self.module_types@, n) == (has_name(before, n) || n == name@) by {
                if has_name(before, n) {
                    let k = choose|k: int| 0 <= k < before.len() && (#[trigger] before[k])@ == n;
                    assert(self.module_types@[k] == before[k]);
                }
                if n == name@ {
                    assert(self.module_types@[before.len() as int]@ == n);
                }
                if has_name(self.module_types@, n) && n != name@ {
                    let k = choose|k: int|
                        0 <= k < self.module_types@.len() && (#[trigger] self.module_types@[k])@
                            == n;
                    assert(k < before.len());
                    assert(before[k] == self.module_types@[k]);
                }
            }
        }
    }

    /// Record the userdata type `name`.
    pub fn register_userdata_type(&mut self, name: &str)
        ensures
            forall|n: Seq<char>| #[trigger]
                final(self).has_userdata_type(n) == (old(self).has_userdata_type(n) || n == name@),
            forall|n: Seq<char>| #[trigger] final(self).global(n) == old(self).global(n),
            forall|n: Seq<char>| #[trigger] final(self).loaded(n) == old(self).loaded(n),
            forall|n: Seq<char>| #[trigger]
                final(self).has_module_type(n) == old(self).has_module_type(n),
            final(self).string_index() == old(self).string_index(),
            final(self).package_path() == old(self).package_path(),
            final(self).has_module_loader() == old(self).has_module_loader(),
    {
        let ghost before = self.userdata_types@;
        self.userdata_types.push(String::from_str(name));
        proof {
            assert forall|n: Seq<char>| #[trigger]
                has_name(self.userdata_types@, n) == (has_name(before, n) || n == name@) by {
                if has_name(before, n) {
                    let k = choose|k: int| 0 <= k < before.len() && (#[trigger] before[k])@ == n;
                    assert(self.userdata_types@[k] == before[k]);
                }
                if n == name@ {
                    assert(self.userdata_types@[before.len() as int]@ == n);
                }
                if has_name(self.userdata_types@, n) && n != name@ {
                    let k = choose|k: int|
                        0 <= k < self.userdata_types@.len() && (#[trigger] self.userdata_types@[k])@
                            == n;
                    assert(k < before.len());
                    assert(before[k] == self.userdata_types@[k]);
                }
            }
        }
    }

    /// Make `v` the `__index` of the string metatable.
    pub fn set_string_index(&mut self, v: GlobalValue)
        ensures
            final(self).string_index() == Some(v@),
            forall|n: Seq<char>| #[trigger] final(self).global(n) == old(self).global(n),
            forall|n: Seq<char>| #[trigger] final(self).loaded(n) == old(self).loaded(n),
            forall|n: Seq<char>| #[trigger]
                final(self).has_module_type(n) == old(self).has_module_type(n),
            forall|n: Seq<char>| #[trigger]
                final(self).has_userdata_type(n) == old(self).has_userdata_type(n),
            final(self).package_path() == old(self).package_path(),
            final(self).has_module_loader() == old(self).has_module_loader(),
    {
        self.string_index = Some(v);
    }

    /// Set the `package.path` searched by file-based `require`.
    pub fn set_package_path(&mut self, path: Option<String>)
        ensures
            final(self).package_path() == (match path {
                Some(p) => Some(p@),
                None => None,
            }),
            forall|n: Seq<char>| #[trigger] final(self).global(n) == old(self).global(n),
            forall|n: Seq<char>| #[trigger] final(self).loaded(n) == old(self).loaded(n),
            forall|n: Seq<char>| #[trigger]
                final(self).has_module_type(n) == old(self).has_module_type(n),
            forall|n: Seq<char>| #[trigger]
                final(self).has_userdata_type(n) == old(self).has_userdata_type(n),
            final(self).string_index() == old(self).string_index(),
            final(self).has_module_loader() == old(self).has_module_loader(),
    {
        self.package_path = path;
    }

    /// Enable file-based module loading.
    pub fn set_module_loader(&mut self)
        ensures
            final(self).has_module_loader(),
            forall|n: Seq<char>| #[trigger] final(self).global(n) == old(self).global(n),
            forall|n: Seq<char>| #[trigger] final(self).loaded(n) == old(self).loaded(n),
            forall|n: Seq<char>| #[trigger]
                final(self).has_module_type(n) == old(self).has_module_type(n),
            forall|n: Seq<char>| #[trigger]
                final(self).has_userdata_type(n) == old(self).has_userdata_type(n),
            final(self).string_index() == old(self).string_index(),
            final(self).package_path() == old(self).package_path(),
    {
        self.module_loader = true;
    }
}

/// The table value of a global, or nothing when it is not a table.
pub open spec fn table_of(v: Option<GlobalView>) -> Option<Seq<Module>> {
    match v {
        Some(GlobalView::Table(m)) => Some(m),
        _ => None,
    }
}

/// The global `name` after merging `mods` into it: the modules are added
/// to its table, or a fresh table is made when it holds no table.
pub open spec fn merged(v: Option<GlobalView>, mods: Seq<Module>) -> GlobalView {
    match table_of(v) {
        Some(m) => GlobalView::Table(m + mods),
        None => GlobalView::Table(mods),
    }
}

/// The names of the functions that a module puts into a library table.
/// The builtins and `load` are installed as global functions, into no
/// table.  The members of the `table`, `utf8` and `task` modules are
/// defined with the interpreter, not here: their sets are left unstated.
pub open spec fn module_functions(m: Module) -> Set<Seq<char>> {
    match m {
        Module::Builtins => Set::empty(),
        Module::Load => Set::empty(),
        Module::Bit32 => set!["band"@, "bor"@, "bxor"@, "bnot"@, "btest"@, "lshift"@, "rshift"@, "arshift"@, "lrotate"@, "rrotate"@, "extract"@, "replace"@, "countlz"@, "countrz"@, "byteswap"@],
        Module::Math => set!["floor"@, "ceil"@, "abs"@, "modf"@, "sqrt"@, "exp"@, "log"@, "log10"@, "pow"@, "frexp"@, "ldexp"@, "deg"@, "rad"@, "sin"@, "cos"@, "tan"@, "asin"@, "acos"@, "atan"@, "atan2"@, "sinh"@, "cosh"@, "tanh"@, "min"@, "tointeger"@, "type"@, "ult"@, "max"@, "fmod"@, "clamp"@, "sign"@, "round"@, "lerp"@, "map"@, "isnan"@, "isinf"@, "isfinite"@, "random"@, "randomseed"@],
        Module::String => set!["len"@, "byte"@, "char"@, "upper"@, "lower"@, "reverse"@, "sub"@, "rep"@, "find"@, "match"@, "gsub"@, "format"@, "pack"@, "unpack"@, "packsize"@, "split"@, "gmatch"@, "trim"@, "trim_start"@, "trim_end"@, "starts_with"@, "ends_with"@, "strip_prefix"@, "strip_suffix"@, "trim_prefix"@, "trim_suffix"@, "split_once"@, "rsplit_once"@, "truncate"@, "dedent"@, "indent"@],
        Module::Table => arbitrary(),
        Module::Utf8 => arbitrary(),
        Module::Os => set!["clock"@, "difftime"@, "time"@, "date"@],
        Module::OsFs => set!["rename"@, "remove"@, "tmpname"@],
        Module::OsExec => set!["execute"@],
        Module::OsEnv => set!["getenv"@],
        Module::OsExit => set!["exit"@],
        Module::Io => set!["open"@, "close"@, "type"@, "tmpfile"@, "lines"@],
        Module::IoStdio => set!["read"@, "write"@, "flush"@, "input"@, "output"@],
        Module::IoPopen => set!["popen"@],
        Module::Debug => set!["traceback"@, "info"@, "getinfo"@, "pretty_print"@],
        Module::DebugIntrospection => set!["getlocal"@, "getupvalue"@, "setupvalue"@, "upvalueid"@],
        Module::DebugTraceback => set!["traceback"@],
        Module::Regex => set!["compile"@, "compile_bytes"@, "escape"@],
        Module::Shlex => set!["split"@, "quote"@, "join"@],
        Module::Process => set!["run"@],
        Module::Task => arbitrary(),
    }
}

/// The module whose function a library table made of `mods` holds under
/// `key`: the last one merged in that defines it.
pub open spec fn table_entry(mods: Seq<Module>, key: Seq<char>) -> Option<Module>
    decreases mods.len(),
{
    if mods.len() == 0 {
        None
    } else if module_functions(mods.last()).contains(key) {
        Some(mods.last())
    } else {
        table_entry(mods.drop_last(), key)
    }
}

/// The keys of a library table made of `mods`.
pub open spec fn table_keys(mods: Seq<Module>) -> Set<Seq<char>> {
    Set::new(|k: Seq<char>| table_entry(mods, k) is Some)
}

/// The module whose function the global `v` holds under `key`, when it
/// is a library table.
pub open spec fn entry_of(v: Option<GlobalView>, key: Seq<char>) -> Option<Module> {
    match table_of(v) {
        Some(m) => table_entry(m, key),
        None => None,
    }
}

/// A fresh table of one module holds exactly that module's functions.
pub proof fn law_fresh_table_keys(m: Module)
    ensures
        table_keys(seq![m]) == module_functions(m),
        forall|k: Seq<char>| module_functions(m).contains(k) ==> #[trigger] table_entry(seq![m], k) == Some(m),
{
    assert forall|k: Seq<char>| #[trigger] table_entry(seq![m], k) == (if module_functions(m).contains(k) {
        Some(m)
    } else {
        None
    }) by {
        assert(seq![m].drop_last() =~= Seq::<Module>::empty());
        assert(table_entry(Seq::<Module>::empty(), k) is None);
    }
    assert(table_keys(seq![m]) =~= module_functions(m));
}

/// Merging a module into a global: the global is a table (the same one,
/// extended, when it was a table; else a fresh one) that holds the
/// module's functions under their names, and under every other key what
/// the old table held (nothing for a fresh table).
pub proof fn law_merge_sets_module_keys(v: Option<GlobalView>, m: Module, key: Seq<char>)
    ensures
        merged(v, seq![m]) is Table,
        table_of(v) matches Some(old_mods) ==> merged(v, seq![m]) == GlobalView::Table(old_mods.push(m)),
        entry_of(Some(merged(v, seq![m])), key) == if module_functions(m).contains(key) {
            Some(m)
        } else {
            entry_of(v, key)
        },
{
    match table_of(v) {
        Some(old_mods) => {
            assert(old_mods + seq![m] =~= old_mods.push(m));
            assert(old_mods.push(m).drop_last() =~= old_mods);
        },
        None => {
            assert(seq![m].drop_last() =~= Seq::<Module>::empty());
            assert(table_entry(Seq::<Module>::empty(), key) is None);
        },
    }
}

/// The entries of the global `b` are those of `a` with the module `m`
/// merged in: its functions under their names, the rest as before.
pub open spec fn keys_merged(a: Option<GlobalView>, b: Option<GlobalView>, m: Module) -> bool {
    &&& table_of(b) is Some
    &&& forall|k: Seq<char>| #[trigger] entry_of(b, k) == if module_functions(m).contains(k) {
        Some(m)
    } else {
        entry_of(a, k)
    }
}

/// Merging a module into a global merges its functions into the entries.
pub proof fn law_merged_entries(v: Option<GlobalView>, m: Module)
    ensures
        keys_merged(v, Some(merged(v, seq![m])), m),
{
    assert forall|k: Seq<char>| #[trigger] entry_of(Some(merged(v, seq![m])), k) == if module_functions(m).contains(k) {
        Some(m)
    } else {
        entry_of(v, k)
    } by {
        law_merge_sets_module_keys(v, m, k);
    }
}

/// Merging two modules whose functions have no name in common gives a
/// table with the same entries in either order.
pub proof fn law_disjoint_merges_commute(v: Option<GlobalView>, a: Module, b: Module, key: Seq<char>)
    requires
        module_functions(a).disjoint(module_functions(b)),
    ensures
        entry_of(Some(merged(Some(merged(v, seq![a])), seq![b])), key) == entry_of(
            Some(merged(Some(merged(v, seq![b])), seq![a])),
            key,
        ),
{
    law_merge_sets_module_keys(v, a, key);
    law_merge_sets_module_keys(v, b, key);
    law_merge_sets_module_keys(Some(merged(v, seq![a])), b, key);
    law_merge_sets_module_keys(Some(merged(v, seq![b])), a, key);
    if module_functions(a).contains(key) {
        assert(!module_functions(b).contains(key));
    }
}

/// `os.remove`, `os.rename` and `os.tmpname` on one side and `os.execute`
/// on the other merge into `os` with the same entries in either order.
pub proof fn law_os_fs_exec_commute(v: Option<GlobalView>, key: Seq<char>)
    ensures
        entry_of(Some(merged(Some(merged(v, seq![Module::OsFs])), seq![Module::OsExec])), key) == entry_of(
            Some(merged(Some(merged(v, seq![Module::OsExec])), seq![Module::OsFs])),
            key,
        ),
{
    assert forall|x: Seq<char>| module_functions(Module::OsFs).contains(x) implies !module_functions(
        Module::OsExec,
    ).contains(x) by {
        reveal_strlit("rename");
        reveal_strlit("remove");
        reveal_strlit("tmpname");
        reveal_strlit("execute");
        assert("rename"@.len() != "execute"@.len());
        assert("remove"@.len() != "execute"@.len());
        assert("tmpname"@[0] != "execute"@[0]);
    }
    law_disjoint_merges_commute(v, Module::OsFs, Module::OsExec, key);
}

/// The only change from `a` to `b` is that the global `name` is `v`.
pub open spec fn only_global_changed(a: GlobalEnv, b: GlobalEnv, name: Seq<char>, v: GlobalView) -> bool {
    &&& forall|n: Seq<char>|
        #[trigger] b.global(n) == if n == name {
            Some(v)
        } else {
            a.global(n)
        }
    &&& forall|n: Seq<char>| #[trigger] b.loaded(n) == a.loaded(n)
    &&& forall|n: Seq<char>| #[trigger] b.has_module_type(n) == a.has_module_type(n)
    &&& forall|n: Seq<char>| #[trigger] b.has_userdata_type(n) == a.has_userdata_type(n)
    &&& b.string_index() == a.string_index()
    &&& b.package_path() == a.package_path()
    &&& b.has_module_loader() == a.has_module_loader()
}

/// Nothing but the globals and the module types differ between `a` and
/// `b`.
pub open spec fn same_rest(a: GlobalEnv, b: GlobalEnv) -> bool {
    &&& forall|n: Seq<char>| #[trigger] b.loaded(n) == a.loaded(n)
    &&& forall|n: Seq<char>| #[trigger] b.has_userdata_type(n) == a.has_userdata_type(n)
    &&& b.string_index() == a.string_index()
    &&& b.package_path() == a.package_path()
    &&& b.has_module_loader() == a.has_module_loader()
}

/// From `a` to `b` the global `name` became `v`, the module type `ty`
/// was registered (when given), and nothing else changed.
pub open spec fn installed(
    a: GlobalEnv,
    b: GlobalEnv,
    name: Seq<char>,
    v: GlobalView,
    ty: Option<Seq<char>>,
) -> bool {
    &&& forall|n: Seq<char>|
        #[trigger] b.global(n) == if n == name {
            Some(v)
        } else {
            a.global(n)
        }
    &&& forall|n: Seq<char>| #[trigger]
        b.has_module_type(n) == (a.has_module_type(n) || ty == Some(n))
    &&& same_rest(a, b)
}

/// Bind the global `name` to a fresh table of the module `m`, and record
/// the module type `name`.
pub fn install_module(env: &mut GlobalEnv, name: &str, m: Module)
    ensures
        installed(*old(env), *final(env), name@, GlobalView::Table(seq![m]), Some(name@)),
{
    let mut t: Vec<Module> = Vec::new();
    t.push(m);
    assert(t@ =~= seq![m]);
    env.set_global(name, GlobalValue::Table(t));
    env.register_module_type(name);
}

/// Is `name` the text of one of `names`?
pub open spec fn has_str(names: Seq<&str>, name: Seq<char>) -> bool {
    exists|k: int| 0 <= k < names.len() && (#[trigger] names[k])@ == name
}

/// Bind each of `names` to a global function of the module `m`.
pub fn set_functions(env: &mut GlobalEnv, names: &[&str], m: Module)
    ensures
        forall|n: Seq<char>|
            #[trigger] final(env).global(n) == if has_str(names@, n) {
                Some(GlobalView::Function(m))
            } else {
                old(env).global(n)
            },
        forall|n: Seq<char>| #[trigger] final(env).has_module_type(n) == old(env).has_module_type(n),
        same_rest(*old(env), *final(env)),
{
    let mut k: usize = 0;
    while k < names.len()
        invariant
            k <= names@.len(),
            forall|n: Seq<char>|
                #[trigger] env.global(n) == if has_str(names@.subrange(0, k as int), n) {
                    Some(GlobalView::Function(m))
                } else {
                    old(env).global(n)
                },
            forall|n: Seq<char>| #[trigger] env.has_module_type(n) == old(env).has_module_type(n),
            same_rest(*old(env), *env),
        decreases names@.len() - k,
    {
        let ghost before = *env;
        env.set_global(names[k], GlobalValue::Function(m));
        proof {
            let pre = names@.subrange(0, k as int);
            let post = names@.subrange(0, k + 1);
            assert forall|n: Seq<char>| has_str(post, n) == (has_str(pre, n) || n == names@[k as int]@) by {
                if has_str(pre, n) {
                    let j = choose|j: int| 0 <= j < pre.len() && (#[trigger] pre[j])@ == n;
                    assert(post[j] == pre[j]);
                }
                if n == names@[k as int]@ {
                    assert(post[k as int] == names@[k as int]);
                }
                if has_str(post, n) && n != names@[k as int]@ {
                    let j = choose|j: int| 0 <= j < post.len() && (#[trigger] post[j])@ == n;
                    assert(pre[j] == post[j]);
                }
            }
        }
        k = k + 1;
    }
    assert(names@.subrange(0, names@.len() as int) =~= names@);
}

/// Cache in `loaded` each of `names` that is bound as a global.
pub fn cache_loaded(env: &mut GlobalEnv, names: &[&str])
    ensures
        forall|n: Seq<char>|
            #[trigger] final(env).loaded(n) == if has_str(names@, n) && old(env).global(n) is Some {
                old(env).global(n)
            } else {
                old(env).loaded(n)
            },
        forall|n: Seq<char>| #[trigger] final(env).global(n) == old(env).global(n),
        forall|n: Seq<char>| #[trigger] final(env).has_module_type(n) == old(env).has_module_type(n),
        forall|n: Seq<char>| #[trigger]
            final(env).has_userdata_type(n) == old(env).has_userdata_type(n),
        final(env).string_index() == old(env).string_index(),
        final(env).package_path() == old(env).package_path(),
        final(env).has_module_loader() == old(env).has_module_loader(),
{
    let mut k: usize = 0;
    while k < names.len()
        invariant
            k <= names@.len(),
            forall|n: Seq<char>|
                #[trigger] env.loaded(n) == if has_str(names@.subrange(0, k as int), n)
                    && old(env).global(n) is Some {
                    old(env).global(n)
                } else {
                    old(env).loaded(n)
                },
            forall|n: Seq<char>| #[trigger] env.global(n) == old(env).global(n),
            forall|n: Seq<char>| #[trigger] env.has_module_type(n) == old(env).has_module_type(n),
            forall|n: Seq<char>| #[trigger]
                env.has_userdata_type(n) == old(env).has_userdata_type(n),
            env.string_index() == old(env).string_index(),
            env.package_path() == old(env).package_path(),
            env.has_module_loader() == old(env).has_module_loader(),
        decreases names@.len() - k,
    {
        let name = names[k];
        proof {
            let pre = names@.subrange(0, k as int);
            let post = names@.subrange(0, k + 1);
            assert forall|n: Seq<char>| has_str(post, n) == (has_str(pre, n) || n == names@[k as int]@) by {
                if has_str(pre, n) {
                    let j = choose|j: int| 0 <= j < pre.len() && (#[trigger] pre[j])@ == n;
                    assert(post[j] == pre[j]);
                }
                if n == names@[k as int]@ {
                    assert(post[k as int] == names@[k as int]);
                }
                if has_str(post, n) && n != names@[k as int]@ {
                    let j = choose|j: int| 0 <= j < post.len() && (#[trigger] post[j])@ == n;
                    assert(pre[j] == post[j]);
                }
            }
        }
        match env.get_global(name) {
            Some(v) => {
                env.set_loaded(name, v);
            },
            None => {},
        }
        k = k + 1;
    }
    assert(names@.subrange(0, names@.len() as int) =~= names@);
}

/// Merge the modules `mods` into the table of the global `name`, creating
/// the table if the global holds none.
pub fn merge_into_table(env: &mut GlobalEnv, name: &str, mods: &[Module])
    ensures
        only_global_changed(*old(env), *final(env), name@, merged(old(env).global(name@), mods@)),
{
    let mut table: Vec<Module> = match env.get_global(name) {
        Some(GlobalValue::Table(m)) => m,
        _ => Vec::new(),
    };
    let ghost start = table@;
    let mut k: usize = 0;
    while k < mods.len()
        invariant
            k <= mods@.len(),
            table@ == start + mods@.subrange(0, k as int),
        decreases mods@.len() - k,
    {
        table.push(mods[k]);
        proof {
            assert(start + mods@.subrange(0, k + 1) =~= (start + mods@.subrange(0, k as int)).push(
                mods@[k as int],
            ));
        }
        k = k + 1;
    }
    assert(mods@.subrange(0, mods@.len() as int) =~= mods@);
    proof {
        match table_of(env.global(name@)) {
            Some(m) => {},
            None => {
                assert(start =~= Seq::<Module>::empty());
            },
        }
    }
    env.set_global(name, GlobalValue::Table(table));
}

} // verus!
