use vstd::prelude::*;
use vstd::string::*;
use crate::paths::{
    spec_locate, spec_rewrite, spec_rewrite_target, lemma_rewrite_round_trip,
    is_clean_component, is_cur_dir, is_parent_dir, parents, parent_component,
    split_literal, join_components, component_has_dot, resolve_components,
    check_all_nonempty, check_clean_path, clone_components, parent_components,
    common_prefix,
};
use crate::text::{contains_char, find_char};

verus! {

// ---------------------------------------------------------------------------
// Module reference descriptors
// ---------------------------------------------------------------------------

/// A file location, as the components of its path from the project root.
#[derive(Debug, Clone, PartialEq, Eq)]
pub struct ModulePath {
    components: Vec<String>,
}

impl View for ModulePath {
    type V = Seq<Seq<char>>;

    closed spec fn view(&self) -> Seq<Seq<char>> {
        self.components.deep_view()
    }
}

impl ModulePath {
    pub fn new(components: Vec<String>) -> (r: Self)
        ensures
            r@ == components.deep_view(),
    {
        ModulePath { components }
    }

    pub fn components(&self) -> (r: &Vec<String>)
        ensures
            r.deep_view() == self@,
    {
        &self.components
    }
}

/// The argument handed to a module-loading call: a path or name literal, or
/// something computed that no strategy can follow.
#[derive(Debug, Clone, PartialEq, Eq)]
pub enum RequireArgument {
    Literal(String),
    Computed,
}

/// A module-loading call site.
#[derive(Debug, Clone, PartialEq, Eq)]
pub struct FunctionCall {
    pub argument: RequireArgument,
}

impl FunctionCall {
    pub fn new(argument: RequireArgument) -> (r: Self)
        ensures
            r.argument == argument,
    {
        FunctionCall { argument }
    }
}

// ---------------------------------------------------------------------------
// The strategy contract
// ---------------------------------------------------------------------------

/// A strategy that maps module-loading calls to on-disk locations and back.
/// Resolution never fails loudly: a call the strategy does not understand
/// simply resolves to nothing and is left unchanged by the caller.
pub trait RequirePathLocatorMode: Sized {
    /// The configured name of the file that stands for a directory module.
    spec fn spec_folder_name(&self) -> Seq<char>;

    fn module_folder_name(&self) -> (r: &str)
        ensures
            r@ == self.spec_folder_name(),
    ;

    /// Resolve the reference text `name`, found in the file `rel`.
    fn get_source(&self, name: &str, rel: &ModulePath) -> (r: Option<ModulePath>);

    /// Resolve a call site. A call whose argument is not a literal resolves
    /// to nothing, never to an error.
    fn match_path_require_call(&self, call: &FunctionCall, source: &ModulePath) -> (r: Option<
        ModulePath,
    >)
        ensures
            !(call.argument matches RequireArgument::Literal(_)) ==> r is None,
    ;

    /// Rewrite a call site so that it points at `target`. A call whose
    /// argument is not a literal cannot be rewritten mechanically.
    fn rewrite_require_call(
        &self,
        call: &FunctionCall,
        source: &ModulePath,
        target: &ModulePath,
    ) -> (r: Option<FunctionCall>)
        ensures
            !(call.argument matches RequireArgument::Literal(_)) ==> r is None,
    ;
}

// ---------------------------------------------------------------------------
// The path-literal strategy
// ---------------------------------------------------------------------------

/// Strategy for calls whose argument is a relative path literal, resolved
/// against the directory of the file holding the call.
#[derive(Debug, Clone, PartialEq, Eq)]
pub struct PathRequireMode {
    module_folder_name: String,
}

impl PathRequireMode {
    pub fn new(module_folder_name: String) -> (r: Self)
        ensures
            r.spec_folder_name() == module_folder_name@,
    {
        PathRequireMode { module_folder_name }
    }
}

impl RequirePathLocatorMode for PathRequireMode {
    closed spec fn spec_folder_name(&self) -> Seq<char> {
        self.module_folder_name@
    }

    fn module_folder_name(&self) -> (r: &str) {
        self.module_folder_name.as_str()
    }

    fn get_source(&self, name: &str, rel: &ModulePath) -> (r: Option<ModulePath>)
        ensures
            (match r {
                Some(p) => spec_locate(self.spec_folder_name(), rel@, name@) == Some(p@),
                None => spec_locate(self.spec_folder_name(), rel@, name@) is None,
            }),
    {
        if rel.components.len() == 0 {
            return None;
        }
        let comps = split_literal(name);
        if !check_all_nonempty(&comps) {
            return None;
        }
        let base = parent_components(&rel.components);
        match resolve_components(&base, &comps) {
            None => None,
            Some(p) => {
                if p.len() == 0 {
                    None
                } else if component_has_dot(&p[p.len() - 1]) {
                    proof {
                        assert(p.deep_view().last() == p.deep_view()[p.len() - 1]);
                    }
                    Some(ModulePath::new(p))
                } else {
                    proof {
                        assert(p.deep_view().last() == p.deep_view()[p.len() - 1]);
                    }
                    let ghost dv_old = p.deep_view();
                    let mut p2 = p;
                    p2.push(self.module_folder_name.clone());
                    proof {
                        assert(p2.deep_view() =~= dv_old.push(self.spec_folder_name()));
                    }
                    Some(ModulePath::new(p2))
                }
            },
        }
    }

    fn match_path_require_call(&self, call: &FunctionCall, source: &ModulePath) -> (r: Option<
        ModulePath,
    >)
        ensures
            (match call.argument {
                RequireArgument::Literal(s) => (match r {
                    Some(p) => spec_locate(self.spec_folder_name(), source@, s@) == Some(p@),
                    None => spec_locate(self.spec_folder_name(), source@, s@) is None,
                }),
                RequireArgument::Computed => r is None,
            }),
    {
        match &call.argument {
            RequireArgument::Literal(s) => self.get_source(s.as_str(), source),
            RequireArgument::Computed => None,
        }
    }

    fn rewrite_require_call(
        &self,
        call: &FunctionCall,
        source: &ModulePath,
        target: &ModulePath,
    ) -> (r: Option<FunctionCall>)
        ensures
            (match call.argument {
                RequireArgument::Literal(_) => (match r {
                    Some(c2) => c2.argument matches RequireArgument::Literal(l)
                        && spec_rewrite(self.spec_folder_name(), source@, target@) == Some(l@)
                        && spec_locate(self.spec_folder_name(), source@, l@) == Some(target@),
                    None => spec_rewrite(self.spec_folder_name(), source@, target@) is None,
                }),
                RequireArgument::Computed => r is None,
            }),
    {
        match &call.argument {
            RequireArgument::Computed => None,
            RequireArgument::Literal(_) => {
                if source.components.len() == 0 {
                    return None;
                }
                if !check_clean_path(&target.components) {
                    return None;
                }
                let tlen = target.components.len();
                if tlen == 0 {
                    return None;
                }
                let use_dir = tlen >= 2 && target.components[tlen - 1] == self.module_folder_name
                    && !component_has_dot(&target.components[tlen - 2]);
                proof {
                    assert(target@.last() == target@[tlen - 1]);
                    if tlen >= 2 {
                        assert(target@[tlen - 2] == target.components.deep_view()[tlen - 2]);
                    }
                }
                let t: Vec<String>;
                if use_dir {
                    t = parent_components(&target.components);
                } else if component_has_dot(&target.components[tlen - 1]) {
                    t = clone_components(&target.components);
                } else {
                    proof {
                        assert(spec_rewrite_target(self.spec_folder_name(), target@) is None);
                    }
                    return None;
                }
                proof {
                    assert(Some(t.deep_view()) == spec_rewrite_target(
                        self.spec_folder_name(),
                        target@,
                    ));
                }
                let base = parent_components(&source.components);
                let k = common_prefix(&base, &t);
                proof {
                    crate::paths::lemma_common_prefix(base.deep_view(), t.deep_view());
                }
                let ups = base.len() - k;
                let mut rel: Vec<String> = Vec::new();
                let mut j: usize = 0;
                proof {
                    reveal_strlit("..");
                    assert(".."@ =~= parent_component());
                    assert(rel.deep_view() =~= parents(0));
                }
                while j < ups
                    invariant
                        0 <= j <= ups,
                        rel.deep_view() == parents(j as nat),
                    decreases ups - j,
                {
                    let ghost dv_old = rel.deep_view();
                    rel.push("..".to_owned());
                    j += 1;
                    proof {
                        reveal_strlit("..");
                        assert(".."@ =~= parent_component());
                        assert(rel.deep_view() =~= dv_old.push(parent_component()));
                        assert(rel.deep_view() =~= parents(j as nat));
                    }
                }
                let mut m: usize = k;
                proof {
                    assert(rel.deep_view() =~= parents(ups as nat) + t.deep_view().subrange(
                        k as int,
                        k as int,
                    ));
                }
                while m < t.len()
                    invariant
                        k <= m <= t.len(),
                        rel.deep_view() == parents(ups as nat) + t.deep_view().subrange(
                            k as int,
                            m as int,
                        ),
                    decreases t.len() - m,
                {
                    let ghost dv_old = rel.deep_view();
                    rel.push(t[m].clone());
                    m += 1;
                    proof {
                        assert(rel.deep_view() =~= dv_old.push(t.deep_view()[m - 1]));
                        assert(rel.deep_view() =~= parents(ups as nat) + t.deep_view().subrange(
                            k as int,
                            m as int,
                        ));
                    }
                }
                proof {
                    assert(t.deep_view().subrange(k as int, t.len() as int) =~= t.deep_view().skip(
                        k as int,
                    ));
                }
                if rel.len() == 0 {
                    return None;
                }
                let lit = join_components(&rel);
                proof {
                    assert(spec_rewrite(self.spec_folder_name(), source@, target@) == Some(lit@));
                    lemma_rewrite_round_trip(self.spec_folder_name(), source@, target@, lit@);
                }
                Some(FunctionCall { argument: RequireArgument::Literal(lit) })
            },
        }
    }
}

// ---------------------------------------------------------------------------
// The module-name strategy
// ---------------------------------------------------------------------------

/// What a bare module name resolves to under the folder convention: a
/// directory named after the module under the configured root, entered
/// through the conventional module folder file.
pub open spec fn spec_name_locate(
    root: Seq<Seq<char>>,
    folder: Seq<char>,
    lit: Seq<char>,
) -> Option<Seq<Seq<char>>> {
    if lit.len() > 0 && !contains_char(lit, '/') && !is_cur_dir(lit) && !is_parent_dir(lit) {
        Some(root.push(lit).push(folder))
    } else {
        None
    }
}

/// The module name that addresses `target` under the folder convention, when
/// one exists.
pub open spec fn spec_name_rewrite(
    root: Seq<Seq<char>>,
    folder: Seq<char>,
    target: Seq<Seq<char>>,
) -> Option<Seq<char>> {
    if target.len() == root.len() + 2 && target.take(root.len() as int) == root && target.last()
        == folder && is_clean_component(target[root.len() as int]) {
        Some(target[root.len() as int])
    } else {
        None
    }
}

/// Rewriting is stable under resolution for the module-name strategy too.
pub proof fn lemma_name_rewrite_round_trip(
    root: Seq<Seq<char>>,
    folder: Seq<char>,
    target: Seq<Seq<char>>,
    lit: Seq<char>,
)
    requires
        spec_name_rewrite(root, folder, target) == Some(lit),
    ensures
        spec_name_locate(root, folder, lit) == Some(target),
{
    assert(is_clean_component(lit));
    assert(root.push(lit).push(folder) =~= target) by {
        assert(forall|i: int| 0 <= i < root.len() ==> root[i] == #[trigger] target[i]);
    }
}

/// Strategy for calls whose argument is a bare module name, found as a
/// directory of that name under a fixed root.
#[derive(Debug, Clone, PartialEq, Eq)]
pub struct NameRequireMode {
    root: ModulePath,
    module_folder_name: String,
}

impl NameRequireMode {
    pub fn new(root: ModulePath, module_folder_name: String) -> (r: Self)
        ensures
            r.spec_root() == root@,
            r.spec_folder_name() == module_folder_name@,
    {
        NameRequireMode { root, module_folder_name }
    }

    /// The configured root directory that holds the named modules.
    pub closed spec fn spec_root(&self) -> Seq<Seq<char>> {
        self.root@
    }

    /// Check that a reference text is a usable bare module name.
    fn check_name(name: &str) -> (b: bool)
        ensures
            b == (name@.len() > 0 && !contains_char(name@, '/') && !is_cur_dir(name@)
                && !is_parent_dir(name@)),
    {
        let n = name.unicode_len();
        if n == 0 {
            return false;
        }
        match find_char(name, '/') {
            Some(_) => {
                return false;
            },
            None => {},
        }
        if n == 1 && name.get_char(0) == '.' {
            return false;
        }
        if n == 2 && name.get_char(0) == '.' && name.get_char(1) == '.' {
            return false;
        }
        true
    }
}

impl RequirePathLocatorMode for NameRequireMode {
    closed spec fn spec_folder_name(&self) -> Seq<char> {
        self.module_folder_name@
    }

    fn module_folder_name(&self) -> (r: &str) {
        self.module_folder_name.as_str()
    }

    fn get_source(&self, name: &str, rel: &ModulePath) -> (r: Option<ModulePath>)
        ensures
            (match r {
                Some(p) => spec_name_locate(self.spec_root(), self.spec_folder_name(), name@)
                    == Some(p@),
                None => spec_name_locate(self.spec_root(), self.spec_folder_name(), name@)
                    is None,
            }),
    {
        if !Self::check_name(name) {
            return None;
        }
        let mut p = clone_components(&self.root.components);
        let ghost dv0 = p.deep_view();
        p.push(name.to_owned());
        proof {
            assert(p.deep_view() =~= dv0.push(name@));
        }
        let ghost dv1 = p.deep_view();
        p.push(self.module_folder_name.clone());
        proof {
            assert(p.deep_view() =~= dv1.push(self.spec_folder_name()));
        }
        Some(ModulePath::new(p))
    }

    fn match_path_require_call(&self, call: &FunctionCall, source: &ModulePath) -> (r: Option<
        ModulePath,
    >)
        ensures
            (match call.argument {
                RequireArgument::Literal(s) => (match r {
                    Some(p) => spec_name_locate(self.spec_root(), self.spec_folder_name(), s@)
                        == Some(p@),
                    None => spec_name_locate(self.spec_root(), self.spec_folder_name(), s@)
                        is None,
                }),
                RequireArgument::Computed => r is None,
            }),
    {
        match &call.argument {
            RequireArgument::Literal(s) => self.get_source(s.as_str(), source),
            RequireArgument::Computed => None,
        }
    }

    fn rewrite_require_call(
        &self,
        call: &FunctionCall,
        source: &ModulePath,
        target: &ModulePath,
    ) -> (r: Option<FunctionCall>)
        ensures
            (match call.argument {
                RequireArgument::Literal(_) => (match r {
                    Some(c2) => c2.argument matches RequireArgument::Literal(l)
                        && spec_name_rewrite(self.spec_root(), self.spec_folder_name(), target@)
                            == Some(l@)
                        && spec_name_locate(self.spec_root(), self.spec_folder_name(), l@)
                            == Some(target@),
                    None => spec_name_rewrite(self.spec_root(), self.spec_folder_name(), target@)
                        is None,
                }),
                RequireArgument::Computed => r is None,
            }),
    {
        match &call.argument {
            RequireArgument::Computed => None,
            RequireArgument::Literal(_) => {
                let rlen = self.root.components.len();
                let tlen = target.components.len();
                if tlen < 2 || tlen - 2 != rlen {
                    return None;
                }
                let mut i: usize = 0;
                while i < rlen
                    invariant
                        0 <= i <= rlen,
                        rlen == self.root@.len(),
                        tlen == target@.len(),
                        tlen == rlen + 2,
                        forall|q: int| 0 <= q < i ==> self.root@[q] == #[trigger] target@[q],
                    decreases rlen - i,
                {
                    if !(target.components[i] == self.root.components[i]) {
                        proof {
                            assert(target@[i as int] != self.root@[i as int]);
                            assert(target@.take(rlen as int)[i as int] != self.root@[i as int]);
                        }
                        return None;
                    }
                    i += 1;
                }
                proof {
                    assert(target@.take(rlen as int) =~= self.spec_root());
                }
                if !(target.components[tlen - 1] == self.module_folder_name) {
                    proof {
                        assert(target@.last() == target@[tlen - 1]);
                    }
                    return None;
                }
                let name = &target.components[rlen];
                let nl = name.as_str().unicode_len();
                proof {
                    assert(name@ == target@[rlen as int]);
                }
                if nl == 0 {
                    return None;
                }
                match find_char(name.as_str(), '/') {
                    Some(_) => {
                        return None;
                    },
                    None => {},
                }
                if nl == 1 && name.as_str().get_char(0) == '.' {
                    return None;
                }
                if nl == 2 && name.as_str().get_char(0) == '.' && name.as_str().get_char(1) == '.' {
                    return None;
                }
                proof {
                    assert(is_clean_component(name@));
                    assert(target@.last() == target@[tlen - 1]);
                    lemma_name_rewrite_round_trip(
                        self.spec_root(),
                        self.spec_folder_name(),
                        target@,
                        name@,
                    );
                }
                Some(FunctionCall { argument: RequireArgument::Literal(name.clone()) })
            },
        }
    }
}

// ---------------------------------------------------------------------------
// Strategy selection
// ---------------------------------------------------------------------------

/// The named strategy choice a pipeline run is configured with. Exactly one
/// strategy is active per run; strategies are never composed.
#[derive(Debug, Clone, PartialEq, Eq)]
pub enum RequireMode {
    Path(PathRequireMode),
    Name(NameRequireMode),
}

impl RequirePathLocatorMode for RequireMode {
    closed spec fn spec_folder_name(&self) -> Seq<char> {
        match self {
            RequireMode::Path(m) => m.spec_folder_name(),
            RequireMode::Name(m) => m.spec_folder_name(),
        }
    }

    fn module_folder_name(&self) -> (r: &str) {
        match self {
            RequireMode::Path(m) => m.module_folder_name(),
            RequireMode::Name(m) => m.module_folder_name(),
        }
    }

    fn get_source(&self, name: &str, rel: &ModulePath) -> (r: Option<ModulePath>)
        ensures
            (match self {
                RequireMode::Path(mode) => (match r {
                    Some(p) => spec_locate(mode.spec_folder_name(), rel@, name@) == Some(p@),
                    None => spec_locate(mode.spec_folder_name(), rel@, name@) is None,
                }),
                RequireMode::Name(mode) => (match r {
                    Some(p) => spec_name_locate(mode.spec_root(), mode.spec_folder_name(), name@)
                        == Some(p@),
                    None => spec_name_locate(mode.spec_root(), mode.spec_folder_name(), name@)
                        is None,
                }),
            }),
    {
        match self {
            RequireMode::Path(m) => m.get_source(name, rel),
            RequireMode::Name(m) => m.get_source(name, rel),
        }
    }

    fn match_path_require_call(&self, call: &FunctionCall, source: &ModulePath) -> (r: Option<
        ModulePath,
    >)
        ensures
            (match call.argument {
                RequireArgument::Literal(s) => (match self {
                    RequireMode::Path(mode) => (match r {
                        Some(p) => spec_locate(mode.spec_folder_name(), source@, s@) == Some(p@),
                        None => spec_locate(mode.spec_folder_name(), source@, s@) is None,
                    }),
                    RequireMode::Name(mode) => (match r {
                        Some(p) => spec_name_locate(mode.spec_root(), mode.spec_folder_name(), s@)
                            == Some(p@),
                        None => spec_name_locate(mode.spec_root(), mode.spec_folder_name(), s@)
                            is None,
                    }),
                }),
                RequireArgument::Computed => r is None,
            }),
    {
        match self {
            RequireMode::Path(m) => m.match_path_require_call(call, source),
            RequireMode::Name(m) => m.match_path_require_call(call, source),
        }
    }

    fn rewrite_require_call(
        &self,
        call: &FunctionCall,
        source: &ModulePath,
        target: &ModulePath,
    ) -> (r: Option<FunctionCall>)
        ensures
            (match call.argument {
                RequireArgument::Literal(_) => (match self {
                    RequireMode::Path(mode) => (match r {
                        Some(c2) => c2.argument matches RequireArgument::Literal(l)
                            && spec_rewrite(mode.spec_folder_name(), source@, target@) == Some(l@)
                            && spec_locate(mode.spec_folder_name(), source@, l@) == Some(target@),
                        None => spec_rewrite(mode.spec_folder_name(), source@, target@) is None,
                    }),
                    RequireMode::Name(mode) => (match r {
                        Some(c2) => c2.argument matches RequireArgument::Literal(l)
                            && spec_name_rewrite(mode.spec_root(), mode.spec_folder_name(), target@)
                                == Some(l@)
                            && spec_name_locate(mode.spec_root(), mode.spec_folder_name(), l@)
                                == Some(target@),
                        None => spec_name_rewrite(mode.spec_root(), mode.spec_folder_name(), target@)
                            is None,
                    }),
                }),
                RequireArgument::Computed => r is None,
            }),
    {
        match self {
            RequireMode::Path(m) => m.rewrite_require_call(call, source, target),
            RequireMode::Name(m) => m.rewrite_require_call(call, source, target),
        }
    }
}

} // verus!
