//! The lint-plugin registry of a plugin environment: the protocol by which
//! loading a plugin file yields exactly one `lint.declare` declaration,
//! the checks on a declaration, and which plugins run for the active
//! lint sets.
use vstd::prelude::*;
use crate::diagnostic::{Severity, SourceLoc};
use crate::error::{LibError, is_runtime, runtime_error};
use crate::decimal::{append_digits, ascii_text, nat_digits};

verus! {

/// The schema version of the lint IR and plugin API that this host
/// provides.
pub const SCHEMA_VERSION: u32 = 3;

/// A plugin's declaration from its `lint.declare {...}` call.
#[derive(Debug)]
pub struct PluginDeclaration {
    pub name: String,
    pub description: String,
    pub default_severity: Severity,
    pub sets: Vec<String>,
    pub min_schema: Option<u32>,
    pub source_path: String,
    pub declare_call_site: Option<SourceLoc>,
}

/// A declaration as plain data.
pub struct DeclView {
    pub name: Seq<char>,
    pub description: Seq<char>,
    pub default_severity: Severity,
    pub sets: Seq<Seq<char>>,
    pub min_schema: Option<u32>,
    pub source_path: Seq<char>,
    pub declare_call_site: Option<(Seq<char>, u32, u32, u32)>,
}

impl View for PluginDeclaration {
    type V = DeclView;

    open spec fn view(&self) -> DeclView {
        DeclView {
            name: self.name@,
            description: self.description@,
            default_severity: self.default_severity,
            sets: self.sets@.map_values(|s: String| s@),
            min_schema: self.min_schema,
            source_path: self.source_path@,
            declare_call_site: match self.declare_call_site {
                Some(l) => Some((l.source_name@, l.byte_offset, l.byte_len, l.line)),
                None => None,
            },
        }
    }
}

/// A copy of the strings.
fn copy_strings(v: &Vec<String>) -> (r: Vec<String>)
    ensures
        r@ == v@,
{
    let mut out: Vec<String> = Vec::new();
    let mut i: usize = 0;
    while i < v.len()
        invariant
            i <= v@.len(),
            out@ == v@.take(i as int),
        decreases v@.len() - i,
    {
        out.push(v[i].clone());
        i = i + 1;
        assert(out@ =~= v@.take(i as int));
    }
    assert(v@.take(v@.len() as int) =~= v@);
    out
}

impl PluginDeclaration {
    /// A copy of the declaration.
    pub fn duplicate(&self) -> (r: PluginDeclaration)
        ensures
            r@ == self@,
    {
        let site = match &self.declare_call_site {
            Some(l) => Some(
                SourceLoc {
                    source_name: l.source_name.clone(),
                    byte_offset: l.byte_offset,
                    byte_len: l.byte_len,
                    line: l.line,
                },
            ),
            None => None,
        };
        let r = PluginDeclaration {
            name: self.name.clone(),
            description: self.description.clone(),
            default_severity: self.default_severity,
            sets: copy_strings(&self.sets),
            min_schema: self.min_schema,
            source_path: self.source_path.clone(),
            declare_call_site: site,
        };
        assert(r@.sets =~= self@.sets);
        r
    }
}

/// Why loading a plugin failed in the load harness.
#[derive(Debug)]
pub enum PluginLoadError {
    /// A plugin load began while another was in progress.
    ConcurrentLoad,
    /// A load ended that never began.
    NotLoading,
    /// The plugin file at this path never called `lint.declare`.
    MissingDeclare { path: String },
}

impl PluginLoadError {
    /// The error's message.
    pub fn message(&self) -> (r: String)
        ensures
            r@ == (match *self {
                PluginLoadError::ConcurrentLoad => "plugin loader is already in the middle of loading another plugin"@,
                PluginLoadError::NotLoading => "end_load called without a matching begin_load"@,
                PluginLoadError::MissingDeclare { path } => "plugin file "@ + path@ + " never called `lint.declare {...}`"@,
            }),
    {
        match self {
            PluginLoadError::ConcurrentLoad => String::from_str(
                "plugin loader is already in the middle of loading another plugin",
            ),
            PluginLoadError::NotLoading => String::from_str(
                "end_load called without a matching begin_load",
            ),
            PluginLoadError::MissingDeclare { path } => {
                let mut m = String::from_str("plugin file ");
                m.append(path.as_str());
                m.append(" never called `lint.declare {...}`");
                m
            },
        }
    }
}

/// A load in progress: the plugin file's path and, once `lint.declare`
/// ran, its declaration.
#[derive(Debug)]
pub struct LoadingState {
    pub path: String,
    pub declared: Option<PluginDeclaration>,
}

/// The plugins declared in an environment, in load order, and the load in
/// progress, if any.
#[derive(Debug)]
pub struct PluginRegistry {
    declarations: Vec<PluginDeclaration>,
    loading: Option<LoadingState>,
}

/// The registry as plain data: the declarations, and the path and pending
/// declaration of the load in progress.
pub struct RegistryView {
    pub decls: Seq<DeclView>,
    pub loading: Option<(Seq<char>, Option<DeclView>)>,
}

/// Why a load failed, as plain data.
pub enum LoadFault {
    ConcurrentLoad,
    NotLoading,
    MissingDeclare(Seq<char>),
}

/// Is `e` the error for the fault `f`?
pub open spec fn fault_is(e: PluginLoadError, f: LoadFault) -> bool {
    match f {
        LoadFault::ConcurrentLoad => e is ConcurrentLoad,
        LoadFault::NotLoading => e is NotLoading,
        LoadFault::MissingDeclare(p) => e matches PluginLoadError::MissingDeclare { path } && path@ == p,
    }
}

/// `begin_load(path)`: refused while a load is in progress; else a load
/// of `path` starts with nothing declared.
pub open spec fn after_begin(v: RegistryView, path: Seq<char>) -> (RegistryView, Option<LoadFault>) {
    if v.loading is Some {
        (v, Some(LoadFault::ConcurrentLoad))
    } else {
        (RegistryView { decls: v.decls, loading: Some((path, None)) }, None)
    }
}

/// `lint.declare`: refused outside a load and after a first declaration;
/// else the declaration is pending.
pub open spec fn after_attach(v: RegistryView, d: DeclView) -> (RegistryView, Option<Seq<char>>) {
    match v.loading {
        None => (v, Some("lint.declare called outside of plugin load"@)),
        Some((p, Some(_))) => (v, Some("lint.declare called more than once in the same plugin file"@)),
        Some((p, None)) => (RegistryView { decls: v.decls, loading: Some((p, Some(d))) }, None),
    }
}

/// `end_load()`: the load in progress ends; its declaration joins the
/// others and is the result, or the plugin declared nothing.
pub open spec fn after_end(v: RegistryView) -> (RegistryView, Result<DeclView, LoadFault>) {
    match v.loading {
        None => (v, Err(LoadFault::NotLoading)),
        Some((p, None)) => (RegistryView { decls: v.decls, loading: None }, Err(LoadFault::MissingDeclare(p))),
        Some((p, Some(d))) => (RegistryView { decls: v.decls.push(d), loading: None }, Ok(d)),
    }
}

impl PluginRegistry {
    /// The registry as plain data.
    pub closed spec fn view_of(&self) -> RegistryView {
        RegistryView {
            decls: self.declarations@.map_values(|d: PluginDeclaration| d@),
            loading: match self.loading {
                Some(s) => Some((
                    s.path@,
                    match s.declared {
                        Some(d) => Some(d@),
                        None => None,
                    },
                )),
                None => None,
            },
        }
    }

    /// An empty registry with no load in progress.
    pub fn new() -> (r: PluginRegistry)
        ensures
            r.view_of().decls == Seq::<DeclView>::empty(),
            r.view_of().loading is None,
    {
        let r = PluginRegistry { declarations: Vec::new(), loading: None };
        assert(r.view_of().decls =~= Seq::<DeclView>::empty());
        r
    }

    /// The declared plugins, in load order.
    pub fn declarations(&self) -> (r: Vec<PluginDeclaration>)
        ensures
            r@.map_values(|d: PluginDeclaration| d@) == self.view_of().decls,
    {
        let mut out: Vec<PluginDeclaration> = Vec::new();
        let mut i: usize = 0;
        while i < self.declarations.len()
            invariant
                i <= self.declarations@.len(),
                out@.len() == i,
                forall|k: int| 0 <= k < i ==> (#[trigger] out@[k])@ == self.declarations@[k]@,
            decreases self.declarations@.len() - i,
        {
            out.push(self.declarations[i].duplicate());
            i = i + 1;
        }
        assert(out@.map_values(|d: PluginDeclaration| d@) =~= self.view_of().decls);
        out
    }

    /// Begin loading the plugin file at `path`.
    pub fn begin_load(&mut self, path: String) -> (r: Result<(), PluginLoadError>)
        ensures
            final(self).view_of() == after_begin(old(self).view_of(), path@).0,
            match after_begin(old(self).view_of(), path@).1 {
                Some(f) => r matches Err(e) && fault_is(e, f),
                None => r is Ok,
            },
    {
        if self.loading.is_some() {
            return Err(PluginLoadError::ConcurrentLoad);
        }
        self.loading = Some(LoadingState { path, declared: None });
        Ok(())
    }

    /// End the load in progress, yielding the plugin's declaration.
    pub fn end_load(&mut self) -> (r: Result<PluginDeclaration, PluginLoadError>)
        ensures
            final(self).view_of() == after_end(old(self).view_of()).0,
            match after_end(old(self).view_of()).1 {
                Ok(d) => r matches Ok(x) && x@ == d,
                Err(f) => r matches Err(e) && fault_is(e, f),
            },
    {
        let state = self.loading.take();
        match state {
            None => Err(PluginLoadError::NotLoading),
            Some(s) => match s.declared {
                None => Err(PluginLoadError::MissingDeclare { path: s.path }),
                Some(d) => {
                    let copy = d.duplicate();
                    let ghost before = self.declarations@;
                    self.declarations.push(d);
                    assert(self.declarations@.map_values(|x: PluginDeclaration| x@) =~= before.map_values(|x: PluginDeclaration| x@).push(copy@));
                    Ok(copy)
                },
            },
        }
    }

    /// Abandon the load in progress, if any.
    pub fn abort_load(&mut self)
        ensures
            final(self).view_of() == (RegistryView { decls: old(self).view_of().decls, loading: None }),
    {
        self.loading = None;
    }

    /// Record the declaration of the plugin being loaded.
    pub fn attach_declaration(&mut self, decl: PluginDeclaration) -> (r: Result<(), LibError>)
        ensures
            final(self).view_of() == after_attach(old(self).view_of(), decl@).0,
            match after_attach(old(self).view_of(), decl@).1 {
                Some(m) => r matches Err(e) && is_runtime(e, m),
                None => r is Ok,
            },
    {
        match &mut self.loading {
            None => Err(runtime_error(String::from_str("lint.declare called outside of plugin load"))),
            Some(state) => {
                if state.declared.is_some() {
                    return Err(
                        runtime_error(
                            String::from_str(
                                "lint.declare called more than once in the same plugin file",
                            ),
                        ),
                    );
                }
                state.declared = Some(decl);
                Ok(())
            },
        }
    }
}

/// Loading a plugin that declares itself once registers exactly that
/// declaration, after those before it, and leaves no load in progress.
pub proof fn law_load_declares_once(v: RegistryView, path: Seq<char>, d: DeclView)
    requires
        v.loading is None,
    ensures
        ({
            let (v1, e1) = after_begin(v, path);
            let (v2, e2) = after_attach(v1, d);
            let (v3, r3) = after_end(v2);
            &&& e1 is None
            &&& e2 is None
            &&& r3 == Ok::<DeclView, LoadFault>(d)
            &&& v3.decls == v.decls.push(d)
            &&& v3.loading is None
        }),
{
}

/// A second `lint.declare` in one plugin file is refused and changes
/// nothing; so is a load begun during another.
pub proof fn law_second_declare_refused(v: RegistryView, d: DeclView, path: Seq<char>)
    requires
        v.loading matches Some((_, Some(_))),
    ensures
        after_attach(v, d).0 == v,
        after_attach(v, d).1 is Some,
        after_begin(v, path).0 == v,
        after_begin(v, path).1 == Some(LoadFault::ConcurrentLoad),
{
}

/// The message refusing a plugin that needs a newer schema.
pub open spec fn schema_message(name: Seq<char>, min: u32) -> Seq<char> {
    "plugin '"@ + name + "' requires schema version "@ + ascii_text(nat_digits(min as nat))
        + " but this host provides version "@ + ascii_text(nat_digits(SCHEMA_VERSION as nat))
}

impl PluginRegistry {
    /// `lint.declare {...}`: the declaration of the plugin being loaded
    /// (its path that of the load, `<unknown>` outside one); refused when
    /// it needs a newer schema than this host's, else recorded.
    pub fn declare(&mut self, name: String, description: String, default_severity: Severity, sets: Vec<String>, min_schema: Option<u32>, declare_call_site: Option<SourceLoc>) -> (r: Result<(), LibError>)
        ensures
            match min_schema {
                Some(m) => m > SCHEMA_VERSION ==> (r matches Err(e) && is_runtime(e, schema_message(name@, m))
                    && final(self).view_of() == old(self).view_of()),
                None => true,
            },
            !(min_schema matches Some(m) && m > SCHEMA_VERSION) ==> ({
                let d = DeclView {
                    name: name@,
                    description: description@,
                    default_severity,
                    sets: sets@.map_values(|x: String| x@),
                    min_schema,
                    source_path: match old(self).view_of().loading {
                        Some((p, _)) => p,
                        None => "<unknown>"@,
                    },
                    declare_call_site: match declare_call_site {
                        Some(l) => Some((l.source_name@, l.byte_offset, l.byte_len, l.line)),
                        None => None,
                    },
                };
                &&& final(self).view_of() == after_attach(old(self).view_of(), d).0
                &&& match after_attach(old(self).view_of(), d).1 {
                    Some(m) => r matches Err(e) && is_runtime(e, m),
                    None => r is Ok,
                }
            }),
    {
        if let Some(m) = min_schema {
            if m > SCHEMA_VERSION {
                let mut msg = String::from_str("plugin '");
                msg.append(name.as_str());
                msg.append("' requires schema version ");
                append_digits(&mut msg, m as u64);
                msg.append(" but this host provides version ");
                append_digits(&mut msg, SCHEMA_VERSION as u64);
                assert(msg@ =~= schema_message(name@, m));
                return Err(runtime_error(msg));
            }
        }
        let path = match &self.loading {
            Some(state) => state.path.clone(),
            None => String::from_str("<unknown>"),
        };
        let decl = PluginDeclaration {
            name,
            description,
            default_severity,
            sets,
            min_schema,
            source_path: path,
            declare_call_site,
        };
        self.attach_declaration(decl)
    }
}

/// A character of a snake_case lint name.
pub open spec fn is_name_char(c: char) -> bool {
    ('a' <= c && c <= 'z') || ('0' <= c && c <= '9') || c == '_'
}

/// Why a lint name is refused, if it is: empty, not snake_case ASCII, or
/// starting with `_`.
pub open spec fn lint_name_fault(name: Seq<char>) -> Option<Seq<char>> {
    if name.len() == 0 {
        Some("lint name must not be empty"@)
    } else if !(forall|i: int| 0 <= i < name.len() ==> is_name_char(#[trigger] name[i])) {
        Some("lint name '"@ + name + "' must be snake_case ASCII (lowercase letters, digits, underscores)"@)
    } else if name[0] == '_' {
        Some("lint name '"@ + name + "' must not start with '_'"@)
    } else {
        None
    }
}

/// Check a plugin's lint name.
pub fn validate_lint_name(name: &str) -> (r: Result<(), String>)
    ensures
        match lint_name_fault(name@) {
            Some(m) => r matches Err(e) && e@ == m,
            None => r is Ok,
        },
{
    let n = name.unicode_len();
    if n == 0 {
        return Err(String::from_str("lint name must not be empty"));
    }
    let mut i: usize = 0;
    while i < n
        invariant
            n == name@.len(),
            i <= n,
            forall|k: int| 0 <= k < i ==> is_name_char(#[trigger] name@[k]),
        decreases n - i,
    {
        let c = name.get_char(i);
        if !(('a' <= c && c <= 'z') || ('0' <= c && c <= '9') || c == '_') {
            assert(!is_name_char(name@[i as int]));
            let mut m = String::from_str("lint name '");
            m.append(name);
            m.append("' must be snake_case ASCII (lowercase letters, digits, underscores)");
            return Err(m);
        }
        i = i + 1;
    }
    if name.get_char(0) == '_' {
        let mut m = String::from_str("lint name '");
        m.append(name);
        m.append("' must not start with '_'");
        return Err(m);
    }
    Ok(())
}

/// Does a plugin with these sets run for the active sets?  Always without
/// a filter or when it declares no sets; else when one of its sets is
/// active.
pub open spec fn plugin_runs(sets: Seq<Seq<char>>, active: Option<Seq<Seq<char>>>) -> bool {
    match active {
        None => true,
        Some(a) => sets.len() == 0 || exists|i: int| 0 <= i < sets.len() && a.contains(#[trigger] sets[i]),
    }
}

/// Is `x` among the names?
fn contains_name(names: &[String], x: &String) -> (r: bool)
    ensures
        r == names@.map_values(|s: String| s@).contains(x@),
{
    let n = names.len();
    let mut i: usize = 0;
    let ghost v = names@.map_values(|s: String| s@);
    while i < n
        invariant
            n == names@.len(),
            v == names@.map_values(|s: String| s@),
            i <= n,
            forall|k: int| 0 <= k < i ==> #[trigger] v[k] != x@,
        decreases n - i,
    {
        if names[i] == *x {
            assert(v[i as int] == x@);
            return true;
        }
        i = i + 1;
    }
    false
}

/// Does a plugin with these sets run for the active sets?
pub fn plugin_active(sets: &[String], active: Option<&[String]>) -> (r: bool)
    ensures
        r == plugin_runs(
            sets@.map_values(|s: String| s@),
            match active {
                Some(a) => Some(a@.map_values(|s: String| s@)),
                None => None,
            },
        ),
{
    match active {
        None => true,
        Some(a) => {
            let n = sets.len();
            if n == 0 {
                return true;
            }
            let ghost sv = sets@.map_values(|s: String| s@);
            let ghost av = a@.map_values(|s: String| s@);
            let mut i: usize = 0;
            while i < n
                invariant
                    n == sets@.len(),
                    active == Some(a),
                    sv == sets@.map_values(|s: String| s@),
                    av == a@.map_values(|s: String| s@),
                    i <= n,
                    forall|k: int| 0 <= k < i ==> !av.contains(#[trigger] sv[k]),
                decreases n - i,
            {
                if contains_name(a, &sets[i]) {
                    assert(av.contains(sv[i as int]));
                    return true;
                }
                i = i + 1;
            }
            false
        },
    }
}

/// The first already loaded plugin with the same name as a new one.
pub fn find_duplicate(names: &[String], name: &String) -> (r: Option<usize>)
    ensures
        match r {
            Some(i) => i < names@.len() && names@[i as int]@ == name@ && forall|j: int| 0 <= j < i ==> #[trigger] names@[j]@ != name@,
            None => forall|j: int| 0 <= j < names@.len() ==> #[trigger] names@[j]@ != name@,
        },
{
    let n = names.len();
    let mut i: usize = 0;
    while i < n
        invariant
            n == names@.len(),
            i <= n,
            forall|j: int| 0 <= j < i ==> #[trigger] names@[j]@ != name@,
        decreases n - i,
    {
        if names[i] == *name {
            return Some(i);
        }
        i = i + 1;
    }
    None
}

} // verus!
