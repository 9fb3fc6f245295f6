//! Modules of the portal: identification, the teaching/taking predicate,
//! and the term filtering, ordering and deduplication of the module list.

use vstd::prelude::*;

use crate::resource::{lemma_lex_lt_transitive, lemma_lex_lt_trichotomy, lex_lt, str_eq,
    str_lex_lt};

verus! {

/// The seven per-module permission flags the portal reports.
#[derive(Copy, Clone, PartialEq, Eq, Structural, Debug)]
pub struct AccessFlags {
    pub full: bool,
    pub read: bool,
    pub create: bool,
    pub update: bool,
    pub delete: bool,
    pub settings_read: bool,
    pub settings_update: bool,
}

/// An announcement of a module; the description is server-side HTML.
#[derive(Clone, Debug)]
pub struct Announcement {
    pub title: String,
    pub description: String,
}

/// One module of the portal, in one academic term.
#[derive(Clone, Debug)]
pub struct Module {
    pub id: String,
    pub code: String,
    pub name: String,
    pub access: Option<AccessFlags>,
    pub term: String,
}

/// The mathematical content of a module record.
pub struct ModuleView {
    pub id: Seq<char>,
    pub code: Seq<char>,
    pub name: Seq<char>,
    pub access: Option<AccessFlags>,
    pub term: Seq<char>,
}

impl View for Module {
    type V = ModuleView;

    open spec fn view(&self) -> ModuleView {
        ModuleView {
            id: self.id@,
            code: self.code@,
            name: self.name@,
            access: self.access,
            term: self.term@,
        }
    }
}

/// A user teaches a module when any write-side permission is granted.
pub open spec fn spec_is_teaching(m: ModuleView) -> bool {
    match m.access {
        Some(a) => a.full || a.create || a.update || a.delete || a.settings_read
            || a.settings_update,
        None => false,
    }
}

impl Module {
    /// Whether the user teaches this module: any permission beyond reading.
    pub fn is_teaching(&self) -> (r: bool)
        ensures
            r == spec_is_teaching(self@),
    {
        match &self.access {
            Some(a) => a.full || a.create || a.update || a.delete || a.settings_read
                || a.settings_update,
            None => false,
        }
    }

    /// Whether the user takes this module: not teaching it.
    pub fn is_taking(&self) -> (r: bool)
        ensures
            r == !spec_is_teaching(self@),
    {
        !self.is_teaching()
    }

    /// Whether the portal reported any access to this module.
    pub fn has_access(&self) -> (r: bool)
        ensures
            r == (self@.access is Some),
    {
        self.access.is_some()
    }

    /// An equal copy of this module record.
    pub fn duplicate(&self) -> (r: Module)
        ensures
            r == *self,
    {
        Module {
            id: self.id.clone(),
            code: self.code.clone(),
            name: self.name.clone(),
            access: match &self.access {
                Some(a) => Some(*a),
                None => None,
            },
            term: self.term.clone(),
        }
    }
}

/// Which modules of the full list are wanted: those of one term exactly, or
/// those of that term and every later one.
pub enum ModuleFilter {
    Equal(String),
    GreaterThan(String),
}

/// Whether a module passes the term filter.
pub open spec fn module_passes(m: ModuleView, f: &ModuleFilter) -> bool {
    match f {
        ModuleFilter::Equal(t) => m.term == t@,
        ModuleFilter::GreaterThan(t) => m.term == t@ || lex_lt(t@, m.term),
    }
}

fn module_passes_exec(m: &Module, f: &ModuleFilter) -> (r: bool)
    ensures
        r == module_passes(m@, f),
{
    match f {
        ModuleFilter::Equal(t) => str_eq(m.term.as_str(), t.as_str()),
        ModuleFilter::GreaterThan(t) => str_eq(m.term.as_str(), t.as_str()) || str_lex_lt(
            t.as_str(),
            m.term.as_str(),
        ),
    }
}

/// The order the module list is presented in: module code ascending, and
/// within one code the latest term first.
pub open spec fn module_le(x: ModuleView, y: ModuleView) -> bool {
    lex_lt(x.code, y.code) || (x.code == y.code && (x.term == y.term || lex_lt(y.term, x.term)))
}

proof fn lemma_module_le_total(x: ModuleView, y: ModuleView)
    ensures
        module_le(x, y) || module_le(y, x),
{
    lemma_lex_lt_trichotomy(x.code, y.code);
    lemma_lex_lt_trichotomy(x.term, y.term);
}

proof fn lemma_module_le_transitive(x: ModuleView, y: ModuleView, z: ModuleView)
    requires
        module_le(x, y),
        module_le(y, z),
    ensures
        module_le(x, z),
{
    lemma_lex_lt_trichotomy(x.code, y.code);
    lemma_lex_lt_trichotomy(y.code, z.code);
    if lex_lt(x.code, y.code) && lex_lt(y.code, z.code) {
        lemma_lex_lt_transitive(x.code, y.code, z.code);
    }
    if x.code == y.code && y.code == z.code {
        if lex_lt(z.term, y.term) && lex_lt(y.term, x.term) {
            lemma_lex_lt_transitive(z.term, y.term, x.term);
        }
    }
}

fn module_le_exec(x: &Module, y: &Module) -> (r: bool)
    ensures
        r == module_le(x@, y@),
{
    if str_lex_lt(x.code.as_str(), y.code.as_str()) {
        true
    } else if str_lex_lt(y.code.as_str(), x.code.as_str()) {
        false
    } else {
        proof {
            lemma_lex_lt_trichotomy(x@.code, y@.code);
        }
        str_eq(x.term.as_str(), y.term.as_str()) || str_lex_lt(y.term.as_str(), x.term.as_str())
    }
}

/// Pairwise sortedness of a module list in `module_le`.
pub open spec fn modules_sorted(s: Seq<Module>) -> bool {
    forall|i: int, j: int| 0 <= i <= j < s.len() ==> module_le(s[i]@, s[j]@)
}

fn sort_modules(v: &mut Vec<Module>)
    ensures
        final(v)@.len() == old(v)@.len(),
        final(v)@.to_multiset() == old(v)@.to_multiset(),
        modules_sorted(final(v)@),
{
    let ghost orig = v@;
    let mut i: usize = 1;
    while i < v.len()
        invariant
            1 <= i,
            v@.len() == orig.len(),
            v@.to_multiset() == orig.to_multiset(),
            forall|a: int, b: int| 0 <= a <= b < i && b < v@.len() ==> module_le(v@[a]@, v@[b]@),
        decreases v@.len() - i,
    {
        broadcast use vstd::seq_lib::group_to_multiset_ensures;

        let x = v.remove(i);
        let ghost v1 = v@;
        let mut j: usize = 0;
        while j < i && module_le_exec(&v[j], &x)
            invariant
                0 <= j <= i,
                i < v1.len() + 1,
                v@ == v1,
                i <= v@.len() + 1,
                forall|a: int| 0 <= a < j ==> module_le(v1[a]@, x@),
            decreases i - j,
        {
            j = j + 1;
        }
        proof {
            if j < i {
                lemma_module_le_total(v1[j as int]@, x@);
            }
        }
        v.insert(j, x);
        proof {
            assert(v@.to_multiset() =~= orig.to_multiset());
            assert forall|a: int, b: int|
                0 <= a <= b < i + 1 && b < v@.len() implies module_le(v@[a]@, v@[b]@) by {
                let jj = j as int;
                if b < jj {
                    assert(v@[a] == v1[a] && v@[b] == v1[b]);
                } else if a < jj && b == jj {
                    assert(v@[b] == x);
                } else if a == jj && b == jj {
                } else if a == jj && b > jj {
                    assert(v@[a] == x && v@[b] == v1[b - 1]);
                    assert(module_le(x@, v1[jj]@));
                    assert(module_le(v1[jj]@, v1[b - 1]@));
                    lemma_module_le_transitive(x@, v1[jj]@, v1[b - 1]@);
                } else if a < jj && b > jj {
                    assert(v@[a] == v1[a] && v@[b] == v1[b - 1]);
                } else {
                    assert(v@[a] == v1[a - 1] && v@[b] == v1[b - 1]);
                }
            }
        }
        i = i + 1;
    }
    proof {
        if v@.len() <= 1 {
            assert(modules_sorted(v@));
        }
    }
}

/// The input modules that pass the term filter, in listing order.
pub open spec fn spec_selected(modules: Seq<Module>, filter: &ModuleFilter) -> Seq<Module> {
    modules.filter(|m: Module| module_passes(m@, filter))
}

/// Some entry of `out` carries `m`'s module code, with an equal or later
/// term.
pub open spec fn code_represented(out: Seq<Module>, m: Module) -> bool {
    exists|a: int|
        0 <= a < out.len() && out[a]@.code == m@.code && (out[a]@.term == m@.term || lex_lt(
            m@.term,
            out[a]@.term,
        ))
}

proof fn lemma_selected_step(modules: Seq<Module>, filter: &ModuleFilter, k: int)
    requires
        0 <= k < modules.len(),
    ensures
        spec_selected(modules.subrange(0, k + 1), filter) == (if module_passes(
            modules[k]@,
            filter,
        ) {
            spec_selected(modules.subrange(0, k), filter).push(modules[k])
        } else {
            spec_selected(modules.subrange(0, k), filter)
        }),
{
    reveal(Seq::filter);
    let whole = modules.subrange(0, k + 1);
    assert(whole.len() == k + 1);
    assert(whole.drop_last() =~= modules.subrange(0, k));
    assert(whole.last() == modules[k]);
}

/// Select the modules of the wanted terms and present them in order: filter
/// by term, sort by module code (latest term first within a code), and keep
/// only the latest-term entry of each code.  The second list returns the
/// elided duplicates, so the caller can warn about each.
///
/// Every kept module passes the filter; the kept codes are pairwise
/// distinct and strictly ascending; every selected module of the input is
/// represented by an entry with its code and an equal or later term; every
/// kept or elided entry is one of the input records; and together they
/// count exactly the modules that pass the filter.
pub fn select_modules(modules: &Vec<Module>, filter: &ModuleFilter) -> (r: (
    Vec<Module>,
    Vec<Module>,
))
    ensures
        forall|i: int| 0 <= i < r.0@.len() ==> module_passes(r.0@[i]@, filter),
        forall|i: int, j: int| 0 <= i < j < r.0@.len() ==> lex_lt(r.0@[i]@.code, r.0@[j]@.code),
        forall|i: int, j: int| 0 <= i < j < r.0@.len() ==> r.0@[i]@.code != r.0@[j]@.code,
        forall|i: int| 0 <= i < r.0@.len() ==> modules@.contains(r.0@[i]),
        forall|x: Module|
            modules@.contains(x) && #[trigger] module_passes(x@, filter) ==> code_represented(
                r.0@,
                x,
            ),
        // the elided duplicates: each passes the filter, is an input, and a
        // kept entry carries its code with an equal or later term
        forall|k: int|
            0 <= k < r.1@.len() ==> module_passes((#[trigger] r.1@[k])@, filter)
                && modules@.contains(r.1@[k]) && code_represented(r.0@, r.1@[k]),
        // kept and elided together are exactly the modules passing the filter
        r.0@.len() + r.1@.len() == spec_selected(modules@, filter).len(),
{
    let mut kept: Vec<Module> = Vec::new();
    let mut k: usize = 0;
    proof {
        reveal(Seq::filter);
        assert(spec_selected(modules@.subrange(0, 0), filter) =~= Seq::<Module>::empty());
    }
    while k < modules.len()
        invariant
            0 <= k <= modules@.len(),
            kept@ == spec_selected(modules@.subrange(0, k as int), filter),
            forall|i: int| 0 <= i < kept@.len() ==> module_passes(kept@[i]@, filter),
            forall|i: int| 0 <= i < kept@.len() ==> modules@.contains(kept@[i]),
            forall|kk: int|
                0 <= kk < k && module_passes(modules@[kk]@, filter) ==> kept@.contains(
                    modules@[kk],
                ),
        decreases modules@.len() - k,
    {
        let ghost taken = modules@.subrange(0, k as int);
        proof {
            lemma_selected_step(modules@, filter, k as int);
        }
        if module_passes_exec(&modules[k], filter) {
            let ghost pre = kept@;
            kept.push(modules[k].duplicate());
            proof {
                assert(modules@.contains(modules@[k as int]));
                assert(kept@[kept@.len() - 1] == modules@[k as int]);
                assert(kept@ =~= spec_selected(modules@.subrange(0, k + 1), filter));
                assert(forall|kk: int|
                    0 <= kk < k && module_passes(modules@[kk]@, filter) ==> pre.contains(
                        modules@[kk],
                    ));
                assert forall|x: Module| pre.contains(x) implies kept@.contains(x) by {
                    let a = choose|a: int| 0 <= a < pre.len() && pre[a] == x;
                    assert(kept@[a] == x);
                }
                assert(kept@.contains(modules@[k as int]));
            }
        } else {
            proof {
                assert(kept@ =~= spec_selected(modules@.subrange(0, k + 1), filter));
            }
        }
        k = k + 1;
    }
    proof {
        assert(modules@.subrange(0, modules@.len() as int) =~= modules@);
        assert(forall|x: Module|
            modules@.contains(x) && module_passes(x@, filter) ==> kept@.contains(x));
    }
    let ghost keptv = kept@;
    sort_modules(&mut kept);
    let ghost g = kept@;
    proof {
        broadcast use vstd::seq_lib::group_to_multiset_ensures;

        assert forall|x: Module| g.contains(x) <==> keptv.contains(x) by {
            assert(g.to_multiset().count(x) == keptv.to_multiset().count(x));
        }
    }
    proof {
        assert forall|m: int| 0 <= m < g.len() implies module_passes(g[m]@, filter) by {
            assert(g.contains(g[m]));
            assert(keptv.contains(g[m]));
            let a = choose|a: int| 0 <= a < keptv.len() && keptv[a] == g[m];
        }
    }
    let mut out: Vec<Module> = Vec::new();
    let mut elided: Vec<Module> = Vec::new();
    let mut leader: usize = 0;
    let mut i: usize = 0;
    while i < kept.len()
        invariant
            0 <= i <= g.len(),
            kept@ == g,
            modules_sorted(g),
            out@.len() + elided@.len() == i,
            forall|k: int|
                0 <= k < elided@.len() ==> exists|kk: int|
                    0 <= kk < i && #[trigger] elided@[k] == g[kk],
            i == 0 ==> out@.len() == 0 && leader == 0,
            i > 0 ==> leader < i,
            i > 0 ==> out@.len() > 0,
            forall|a: int| 0 <= a < out@.len() ==> module_passes(out@[a]@, filter),
            forall|a: int| 0 <= a < out@.len() ==> g.contains(out@[a]),
            forall|a: int, b: int| 0 <= a < b < out@.len() ==> lex_lt(out@[a]@.code, out@[b]@.code),
            i > 0 ==> out@[out@.len() - 1]@ == g[leader as int]@,
            forall|kk: int|
                leader <= kk < i ==> g[kk]@.code == g[leader as int]@.code,
            forall|kk: int| 0 <= kk < i ==> #[trigger] code_represented(out@, g[kk]),
            forall|m: int| 0 <= m < g.len() ==> module_passes(g[m]@, filter),
        decreases g.len() - i,
    {
        let ghost out_pre = out@;
        if i == 0 {
            out.push(kept[i].duplicate());
            proof {
                assert(g.contains(g[0]));
                assert(out@[0] == g[0]);
                assert(code_represented(out@, g[0]));
            }
        } else if !str_eq(kept[i].code.as_str(), kept[leader].code.as_str()) {
            proof {
                assert(module_le(g[leader as int]@, g[i as int]@));
                assert(lex_lt(g[leader as int]@.code, g[i as int]@.code));
            }
            out.push(kept[i].duplicate());
            leader = i;
            proof {
                assert(g.contains(g[i as int]));
                assert(out@[out@.len() - 1] == g[i as int]);
                assert(code_represented(out@, g[i as int]));
                assert(forall|b: int| 0 <= b < out_pre.len() ==> out@[b] == out_pre[b]);
                assert forall|kk: int| 0 <= kk < i implies #[trigger] code_represented(
                    out@,
                    g[kk],
                ) by {
                    assert(code_represented(out_pre, g[kk]));
                    let a = choose|a: int|
                        0 <= a < out_pre.len() && out_pre[a]@.code == g[kk]@.code && (
                        out_pre[a]@.term == g[kk]@.term || lex_lt(g[kk]@.term, out_pre[a]@.term));
                    assert(out@[a] == out_pre[a]);
                }
                assert forall|a: int, b: int|
                    0 <= a < b < out@.len() implies lex_lt(out@[a]@.code, out@[b]@.code) by {
                    if b == out@.len() - 1 {
                        if a < out@.len() - 2 {
                            lemma_lex_lt_transitive(
                                out@[a]@.code,
                                out_pre[out_pre.len() - 1]@.code,
                                out@[b]@.code,
                            );
                        }
                    }
                }
            }
        } else {
            proof {
                // the run leader already stands for this module's code
                assert(g[i as int]@.code == g[leader as int]@.code);
                assert(module_le(g[leader as int]@, g[i as int]@));
                lemma_lex_lt_trichotomy(g[leader as int]@.code, g[i as int]@.code);
                let a = out@.len() - 1;
                assert(out@[a]@.code == g[i as int]@.code);
                assert(out@[a]@.term == g[i as int]@.term || lex_lt(
                    g[i as int]@.term,
                    out@[a]@.term,
                ));
                assert(code_represented(out@, g[i as int]));
            }
            let ghost el_pre = elided@;
            elided.push(kept[i].duplicate());
            proof {
                assert(elided@[elided@.len() - 1] == g[i as int]);
                assert(forall|b: int| 0 <= b < el_pre.len() ==> elided@[b] == el_pre[b]);
                assert forall|k: int|
                    0 <= k < elided@.len() implies exists|kk: int|
                    0 <= kk < i + 1 && #[trigger] elided@[k] == g[kk] by {
                    if k < el_pre.len() {
                        let kk = choose|kk: int| 0 <= kk < i && el_pre[k] == g[kk];
                        assert(elided@[k] == g[kk]);
                    } else {
                        assert(elided@[k] == g[i as int]);
                    }
                }
            }
        }
        i = i + 1;
    }
    proof {
        assert forall|a: int, b: int| 0 <= a < b < out@.len() implies out@[a]@.code
            != out@[b]@.code by {
            lemma_lex_lt_trichotomy(out@[a]@.code, out@[b]@.code);
        }
        assert forall|x: Module|
            modules@.contains(x) && #[trigger] module_passes(x@, filter) implies code_represented(
            out@,
            x,
        ) by {
            assert(keptv.contains(x));
            assert(g.contains(x));
            let kk = choose|kk: int| 0 <= kk < g.len() && g[kk] == x;
            assert(code_represented(out@, g[kk]));
        }
        assert forall|i: int| 0 <= i < out@.len() implies modules@.contains(out@[i]) by {
            assert(g.contains(out@[i]));
            assert(keptv.contains(out@[i]));
        }
        assert forall|k: int|
            0 <= k < elided@.len() implies module_passes((#[trigger] elided@[k])@, filter)
            && modules@.contains(elided@[k]) && code_represented(out@, elided@[k]) by {
            let kk = choose|kk: int| 0 <= kk < g.len() && elided@[k] == g[kk];
            assert(module_passes(g[kk]@, filter));
            assert(g.contains(g[kk]));
            assert(keptv.contains(g[kk]));
            assert(code_represented(out@, g[kk]));
        }
        assert(out@.len() + elided@.len() == g.len());
        assert(g.len() == keptv.len());
    }
    (out, elided)
}

/// A node of a module's file tree, as the file listing is explored: a
/// directory's children stay unloaded until fetched.
#[derive(Debug)]
pub struct File {
    pub id: String,
    pub name: String,
    pub is_directory: bool,
    pub children: Option<Vec<File>>,
    pub allow_upload: bool,
}

impl File {
    /// The node's sanitized display name.
    pub fn name(&self) -> (r: &str)
        ensures
            r@ == self.name@,
    {
        self.name.as_str()
    }

    /// Whether this node is a directory.
    pub fn is_directory(&self) -> (r: bool)
        ensures
            r == self.is_directory,
    {
        self.is_directory
    }

    /// The node's children: `None` until they were loaded.
    pub fn children(&self) -> (r: &Option<Vec<File>>)
        ensures
            r == self.children,
    {
        &self.children
    }
}

impl Module {
    /// The module as the root of its file tree: a directory named by the
    /// sanitized module code, its children not yet loaded.
    pub fn as_file(&self) -> (r: File)
        ensures
            r.id@ == self@.id,
            r.name@ == crate::util::spec_sanitise(self@.code),
            r.is_directory == true,
            r.children is None,
            r.allow_upload == false,
    {
        File {
            id: self.id.clone(),
            name: crate::util::sanitise_filename(self.code.as_str()),
            is_directory: true,
            children: None,
            allow_upload: false,
        }
    }

    /// The module's workbin root: a directory named by the sanitized module
    /// code.
    pub fn workbin_root(&self) -> (r: crate::file::DirectoryHandle)
        ensures
            r@.id == self@.id,
            r@.path == crate::util::spec_sanitise(self@.code),
            r@.allow_upload == false,
    {
        crate::file::DirectoryHandle::new(
            self.id.clone(),
            crate::util::sanitise_filename(self.code.as_str()),
        )
    }

    /// The module's multimedia root: `<sanitized code>/Multimedia`.
    pub fn multimedia_root(&self) -> (r: crate::multimedia::MultimediaHandle)
        ensures
            r.id@ == self@.id,
            r.path@ == crate::file::spec_path_join(
                crate::util::spec_sanitise(self@.code),
                "Multimedia"@,
            ),
    {
        let clean = crate::util::sanitise_filename(self.code.as_str());
        let path = crate::file::path_join(clean.as_str(), "Multimedia");
        crate::multimedia::MultimediaHandle::new(self.id.clone(), path)
    }

    /// The module's web-lecture root: `<sanitized code>/Web Lectures`.
    pub fn weblecture_root(&self) -> (r: crate::weblecture::WebLectureHandle)
        ensures
            r.id@ == self@.id,
            r.path@ == crate::file::spec_path_join(
                crate::util::spec_sanitise(self@.code),
                "Web Lectures"@,
            ),
    {
        let clean = crate::util::sanitise_filename(self.code.as_str());
        let path = crate::file::path_join(clean.as_str(), "Web Lectures");
        crate::weblecture::WebLectureHandle::new(self.id.clone(), path)
    }

    /// The module's conference root: `<sanitized code>/Conferences`.
    pub fn conferencing_root(&self) -> (r: crate::conferencing::ConferencingHandle)
        ensures
            r.id@ == self@.id,
            r.path@ == crate::file::spec_path_join(
                crate::util::spec_sanitise(self@.code),
                "Conferences"@,
            ),
    {
        let clean = crate::util::sanitise_filename(self.code.as_str());
        let path = crate::file::path_join(clean.as_str(), "Conferences");
        crate::conferencing::ConferencingHandle::new(self.id.clone(), path)
    }
}

} // verus!
