//! The registry of loaded plugins.

use std::path::PathBuf;
use vstd::prelude::*;

use super::types::{
    keeps_identity, ContentProvider, Plugin, PluginError, PluginType, ShortcutProvider,
};

verus! {

/// A filesystem path, carried through unchanged as the plugin directory.
#[verifier::external_type_specification]
#[verifier::external_body]
pub struct ExPathBuf(std::path::PathBuf);

/// `p` carries the plugin id `id`.
pub open spec fn has_id<P: Plugin>(p: P, id: Seq<char>) -> bool {
    p.spec_metadata().id@ == id
}

/// Index of the first plugin of `s` whose id is `id`; the length of `s` when there is none.
pub open spec fn first_with_id<P: Plugin>(s: Seq<P>, id: Seq<char>) -> nat
    decreases s.len(),
{
    if s.len() == 0 {
        0
    } else if has_id(s[0], id) {
        0
    } else {
        1 + first_with_id(s.drop_first(), id)
    }
}

/// The ids of the plugins of `s` whose kind is `kind`, in the order of `s`.
pub open spec fn ids_of_kind<P: Plugin>(s: Seq<P>, kind: PluginType) -> Seq<Seq<char>>
    decreases s.len(),
{
    if s.len() == 0 {
        Seq::empty()
    } else {
        let rest = ids_of_kind(s.drop_last(), kind);
        if s.last().spec_kind() == kind {
            rest.push(s.last().spec_metadata().id@)
        } else {
            rest
        }
    }
}

/// `first_with_id` is the index of the first plugin with the id, or the length when none has it.
pub proof fn lemma_first_with_id<P: Plugin>(s: Seq<P>, id: Seq<char>, k: int)
    requires
        0 <= k <= s.len(),
        forall|j: int| 0 <= j < k ==> !has_id(s[j], id),
        k < s.len() ==> has_id(s[k], id),
    ensures
        first_with_id(s, id) == k,
    decreases k,
{
    if k > 0 {
        let rest = s.drop_first();
        assert forall|j: int| 0 <= j < k - 1 implies !has_id(rest[j], id) by {
            assert(rest[j] == s[j + 1]);
        }
        lemma_first_with_id(rest, id, k - 1);
    }
}

/// The message of the error for a plugin that is not of the kind named `kind_name`.
pub open spec fn wrong_kind_message(id: Seq<char>, kind_name: Seq<char>) -> Seq<char> {
    "Plugin '"@ + id + "' is not a "@ + kind_name
}

/// The registry of loaded plugins, kept in load order, with the directory they come from.
pub struct PluginManager<P> {
    entries: Vec<P>,
    plugin_dir: PathBuf,
}

impl<P> View for PluginManager<P> {
    type V = Seq<P>;

    /// The loaded plugins, in load order.
    closed spec fn view(&self) -> Seq<P> {
        self.entries@
    }
}

impl<P: Plugin> PluginManager<P> {
    /// The plugin directory.
    pub closed spec fn dir(&self) -> PathBuf {
        self.plugin_dir
    }

    /// A registry with no plugins loaded, for plugins found in `plugin_dir`.
    pub fn new(plugin_dir: PathBuf) -> (m: Self)
        ensures
            m@ == Seq::<P>::empty(),
            m.dir() == plugin_dir,
    {
        PluginManager { entries: Vec::new(), plugin_dir }
    }

    /// The index of the first plugin with id `target`, if any.
    fn position(&self, target: &String) -> (r: Option<usize>)
        ensures
            match r {
                Some(i) => i == first_with_id(self@, target@) && i < self@.len(),
                None => first_with_id(self@, target@) == self@.len(),
            },
    {
        let mut i: usize = 0;
        while i < self.entries.len()
            invariant
                i <= self.entries@.len(),
                forall|j: int| 0 <= j < i ==> !has_id(#[trigger] self.entries@[j], target@),
            decreases self.entries@.len() - i,
        {
            if self.entries[i].metadata().id == *target {
                proof {
                    lemma_first_with_id(self.entries@, target@, i as int);
                }
                return Some(i);
            }
            i = i + 1;
        }
        proof {
            lemma_first_with_id(self.entries@, target@, i as int);
        }
        None
    }

    /// Removes the first plugin whose id is `plugin_id`; fails with `NotFound` when none has it.
    pub fn unload(&mut self, plugin_id: &str) -> (r: Result<(), PluginError>)
        ensures
            first_with_id(old(self)@, plugin_id@) < old(self)@.len() ==> r is Ok && final(self)@
                == old(self)@.remove(first_with_id(old(self)@, plugin_id@) as int),
            first_with_id(old(self)@, plugin_id@) == old(self)@.len() ==> (r matches Err(
                PluginError::NotFound(id),
            ) && id@ == plugin_id@ && final(self)@ == old(self)@),
            final(self).dir() == old(self).dir(),
    {
        let target = plugin_id.to_owned();
        match self.position(&target) {
            Some(idx) => {
                self.entries.remove(idx);
                Ok(())
            },
            None => Err(PluginError::NotFound(target)),
        }
    }
}

impl<P: Plugin> PluginManager<P> {
    /// The ids of the loaded plugins of kind `kind`, in load order.
    fn ids_of(&self, kind: PluginType) -> (ids: Vec<String>)
        ensures
            ids@.map_values(|s: String| s@) == ids_of_kind(self@, kind),
    {
        let mut ids: Vec<String> = Vec::new();
        let mut i: usize = 0;
        while i < self.entries.len()
            invariant
                i <= self.entries@.len(),
                ids@.map_values(|s: String| s@) == ids_of_kind(self.entries@.take(i as int), kind),
            decreases self.entries@.len() - i,
        {
            let entry = &self.entries[i];
            assert(self.entries@.take(i + 1).drop_last() =~= self.entries@.take(i as int));
            if entry.plugin_type() == kind {
                ids.push(entry.metadata().id.clone());
            }
            assert(ids@.map_values(|s: String| s@) =~= ids_of_kind(
                self.entries@.take(i + 1),
                kind,
            ));
            i = i + 1;
        }
        assert(self.entries@.take(self.entries@.len() as int) =~= self.entries@);
        ids
    }

    /// The ids of the loaded content providers, in load order.
    pub fn list_content_providers(&self) -> (ids: Vec<String>)
        ensures
            ids@.map_values(|s: String| s@) == ids_of_kind(self@, PluginType::ContentProvider),
    {
        self.ids_of(PluginType::ContentProvider)
    }

    /// The ids of the loaded theme providers, in load order.
    pub fn list_theme_providers(&self) -> (ids: Vec<String>)
        ensures
            ids@.map_values(|s: String| s@) == ids_of_kind(self@, PluginType::ThemeProvider),
    {
        self.ids_of(PluginType::ThemeProvider)
    }

    /// The ids of the loaded shortcut providers, in load order.
    pub fn list_shortcut_providers(&self) -> (ids: Vec<String>)
        ensures
            ids@.map_values(|s: String| s@) == ids_of_kind(self@, PluginType::ShortcutProvider),
    {
        self.ids_of(PluginType::ShortcutProvider)
    }
}

impl<P: Plugin> PluginManager<P> {
    /// The index of the first plugin with id `plugin_id` when it is of kind `kind`;
    /// otherwise the error that the `with_*` methods return.
    fn locate(&self, plugin_id: &str, kind: PluginType, kind_name: &str) -> (r: Result<
        usize,
        PluginError,
    >)
        ensures
            located(self@, plugin_id@, kind, kind_name@, r),
    {
        let target = plugin_id.to_owned();
        match self.position(&target) {
            None => Err(PluginError::NotFound(target)),
            Some(idx) => {
                if self.entries[idx].plugin_type() != kind {
                    let mut msg = "Plugin '".to_owned();
                    msg.append(plugin_id);
                    msg.append("' is not a ");
                    msg.append(kind_name);
                    Err(PluginError::InvalidPlugin(msg))
                } else {
                    Ok(idx)
                }
            },
        }
    }

    /// Runs `f` on the content provider whose id is `plugin_id` and returns what `f` returns.
    /// Fails with `NotFound` when no plugin has the id, and with `InvalidPlugin` when the
    /// first plugin with the id is not a content provider; `f` is not run then.
    pub fn with_content<F, R>(&self, plugin_id: &str, f: F) -> (r: Result<R, PluginError>) where
        P: ContentProvider,
        F: FnOnce(&P) -> R,

        requires
            first_with_id(self@, plugin_id@) < self@.len() && self@[first_with_id(
                self@,
                plugin_id@,
            ) as int].spec_kind() == PluginType::ContentProvider ==> f.requires(
                (&self@[first_with_id(self@, plugin_id@) as int],),
            ),
        ensures
            lookup_outcome(self@, plugin_id@, PluginType::ContentProvider, "ContentProvider"@, r),
            r matches Ok(v) ==> f.ensures((&self@[first_with_id(self@, plugin_id@) as int],), v),
    {
        match self.locate(plugin_id, PluginType::ContentProvider, "ContentProvider") {
            Ok(idx) => {
                let v = f(&self.entries[idx]);
                Ok(v)
            },
            Err(e) => Err(e),
        }
    }
}

impl<P: Plugin> PluginManager<P> {
    /// Runs `f` on the content provider whose id is `plugin_id`, with mutable access, and
    /// returns what `f` returns. Fails as `with_content` does, and `f` is not run then.
    /// `f` keeps the plugin's metadata and kind, as the provider's own methods do, so the
    /// ids and kinds of all loaded plugins stay as they were.
    pub fn with_content_mut<F, R>(&mut self, plugin_id: &str, f: F) -> (r: Result<
        R,
        PluginError,
    >) where P: ContentProvider, F: FnOnce(&mut P) -> R,

        requires
            first_with_id(old(self)@, plugin_id@) < old(self)@.len() && old(self)@[first_with_id(
                old(self)@,
                plugin_id@,
            ) as int].spec_kind() == PluginType::ContentProvider ==> forall|p: &mut P|
                *p == old(self)@[first_with_id(old(self)@, plugin_id@) as int] ==> f.requires((p,)),
            forall|p: &mut P, v: R|
                f.ensures((p,), v) ==> keeps_identity(*p, *final(p)),
        ensures
            lookup_outcome(old(self)@, plugin_id@, PluginType::ContentProvider, "ContentProvider"@, r),
            r is Err ==> final(self)@ == old(self)@,
            r matches Ok(v) ==> exists|p: &mut P|
                *p == old(self)@[first_with_id(old(self)@, plugin_id@) as int]
                    && *final(p) == final(self)@[first_with_id(old(self)@, plugin_id@) as int]
                    && f.ensures((p,), v),
            final(self)@.len() == old(self)@.len(),
            forall|j: int| 0 <= j < old(self)@.len() ==> keeps_identity(old(self)@[j], final(self)@[j]),
            forall|j: int|
                0 <= j < old(self)@.len() && j != first_with_id(old(self)@, plugin_id@)
                    ==> final(self)@[j] == old(self)@[j],
            final(self).dir() == old(self).dir(),
    {
        match self.locate(plugin_id, PluginType::ContentProvider, "ContentProvider") {
            Ok(idx) => {
                let entry = &mut self.entries[idx];
                let v = f(entry);
                Ok(v)
            },
            Err(e) => Err(e),
        }
    }
}

impl<P: Plugin> PluginManager<P> {
    /// Runs `f` on the theme provider whose id is `plugin_id` and returns what `f` returns.
    /// Fails with `NotFound` when no plugin has the id, and with `InvalidPlugin` when the
    /// first plugin with the id is not a theme provider; `f` is not run then.
    pub fn with_theme<F, R>(&self, plugin_id: &str, f: F) -> (r: Result<R, PluginError>) where
        F: FnOnce(&P) -> R,

        requires
            first_with_id(self@, plugin_id@) < self@.len() && self@[first_with_id(
                self@,
                plugin_id@,
            ) as int].spec_kind() == PluginType::ThemeProvider ==> f.requires(
                (&self@[first_with_id(self@, plugin_id@) as int],),
            ),
        ensures
            lookup_outcome(self@, plugin_id@, PluginType::ThemeProvider, "ThemeProvider"@, r),
            r matches Ok(v) ==> f.ensures((&self@[first_with_id(self@, plugin_id@) as int],), v),
    {
        match self.locate(plugin_id, PluginType::ThemeProvider, "ThemeProvider") {
            Ok(idx) => Ok(f(&self.entries[idx])),
            Err(e) => Err(e),
        }
    }

    /// Runs `f` on the shortcut provider whose id is `plugin_id`, with mutable access, and
    /// returns what `f` returns. Fails with `NotFound` when no plugin has the id, and with
    /// `InvalidPlugin` when the first plugin with the id is not a shortcut provider; `f` is
    /// not run then. `f` keeps the plugin's metadata and kind, as the provider's own
    /// methods do, so the ids and kinds of all loaded plugins stay as they were.
    pub fn with_shortcut_mut<F, R>(&mut self, plugin_id: &str, f: F) -> (r: Result<
        R,
        PluginError,
    >) where P: ShortcutProvider, F: FnOnce(&mut P) -> R,

        requires
            first_with_id(old(self)@, plugin_id@) < old(self)@.len() && old(self)@[first_with_id(
                old(self)@,
                plugin_id@,
            ) as int].spec_kind() == PluginType::ShortcutProvider ==> forall|p: &mut P|
                *p == old(self)@[first_with_id(old(self)@, plugin_id@) as int] ==> f.requires((p,)),
            forall|p: &mut P, v: R|
                f.ensures((p,), v) ==> keeps_identity(*p, *final(p)),
        ensures
            lookup_outcome(old(self)@, plugin_id@, PluginType::ShortcutProvider, "ShortcutProvider"@, r),
            r is Err ==> final(self)@ == old(self)@,
            r matches Ok(v) ==> exists|p: &mut P|
                *p == old(self)@[first_with_id(old(self)@, plugin_id@) as int]
                    && *final(p) == final(self)@[first_with_id(old(self)@, plugin_id@) as int]
                    && f.ensures((p,), v),
            final(self)@.len() == old(self)@.len(),
            forall|j: int| 0 <= j < old(self)@.len() ==> keeps_identity(old(self)@[j], final(self)@[j]),
            forall|j: int|
                0 <= j < old(self)@.len() && j != first_with_id(old(self)@, plugin_id@)
                    ==> final(self)@[j] == old(self)@[j],
            final(self).dir() == old(self).dir(),
    {
        match self.locate(plugin_id, PluginType::ShortcutProvider, "ShortcutProvider") {
            Ok(idx) => {
                let entry = &mut self.entries[idx];
                let v = f(entry);
                Ok(v)
            },
            Err(e) => Err(e),
        }
    }

    /// The directory plugins are loaded from.
    pub fn plugin_dir(&self) -> (d: &PathBuf)
        ensures
            *d == self.dir(),
    {
        &self.plugin_dir
    }

    /// Adds the plugins that loaded, in order, after those already loaded; outcomes that
    /// are errors are skipped.
    pub fn load_all(&mut self, loaded: Vec<Result<P, PluginError>>)
        ensures
            final(self)@ == old(self)@ + successes(loaded@),
            final(self).dir() == old(self).dir(),
    {
        let ghost before = self.entries@;
        let ghost dir = self.plugin_dir;
        let ghost all = loaded@;
        for outcome in it: loaded
            invariant
                it.seq() == all,
                self.plugin_dir == dir,
                self.entries@ == before + successes(all.take(it.index() as int)),
        {
            assert(all.take(it.index() + 1).drop_last() =~= all.take(it.index() as int));
            match outcome {
                Ok(plugin) => {
                    self.entries.push(plugin);
                },
                Err(_) => {},
            }
            assert(self.entries@ =~= before + successes(all.take(it.index() + 1)));
        }
        assert(all.take(all.len() as int) =~= all);
    }
}

/// The plugins among `outcomes` that loaded, in order.
pub open spec fn successes<P>(outcomes: Seq<Result<P, PluginError>>) -> Seq<P>
    decreases outcomes.len(),
{
    if outcomes.len() == 0 {
        Seq::empty()
    } else {
        let rest = successes(outcomes.drop_last());
        match outcomes.last() {
            Ok(p) => rest.push(p),
            Err(_) => rest,
        }
    }
}

/// What `locate` returns: the index of the first plugin with id `id` when it has kind
/// `kind`, `NotFound(id)` when no plugin has the id, and otherwise `InvalidPlugin` with
/// the message naming the kind.
pub open spec fn located<P: Plugin>(
    s: Seq<P>,
    id: Seq<char>,
    kind: PluginType,
    kind_name: Seq<char>,
    r: Result<usize, PluginError>,
) -> bool {
    let i = first_with_id(s, id);
    if i == s.len() {
        r matches Err(PluginError::NotFound(msg)) && msg@ == id
    } else if s[i as int].spec_kind() != kind {
        r matches Err(PluginError::InvalidPlugin(msg)) && msg@ == wrong_kind_message(id, kind_name)
    } else {
        i < s.len() && (r matches Ok(j) && j == i)
    }
}

/// Whether a `with_*` call succeeds, and with which error it fails: `NotFound(id)` when no
/// plugin has id `id`, `InvalidPlugin` naming the kind when the first plugin with the id
/// is not of kind `kind`, and success otherwise.
pub open spec fn lookup_outcome<P: Plugin, R>(
    s: Seq<P>,
    id: Seq<char>,
    kind: PluginType,
    kind_name: Seq<char>,
    r: Result<R, PluginError>,
) -> bool {
    let i = first_with_id(s, id);
    if i == s.len() {
        r matches Err(PluginError::NotFound(msg)) && msg@ == id
    } else if s[i as int].spec_kind() != kind {
        r matches Err(PluginError::InvalidPlugin(msg)) && msg@ == wrong_kind_message(id, kind_name)
    } else {
        r is Ok
    }
}

/// Every loaded plugin is listed by exactly one of the three `list_*` methods: their
/// lengths add up to the number of loaded plugins.
pub proof fn lemma_lists_partition<P: Plugin>(s: Seq<P>)
    ensures
        ids_of_kind(s, PluginType::ContentProvider).len() + ids_of_kind(
            s,
            PluginType::ThemeProvider,
        ).len() + ids_of_kind(s, PluginType::ShortcutProvider).len() == s.len(),
    decreases s.len(),
{
    if s.len() > 0 {
        lemma_lists_partition(s.drop_last());
    }
}

/// Listing after `load_all` gives the ids listed before, then those of the newly loaded
/// plugins of the kind, in load order.
pub proof fn lemma_ids_of_kind_append<P: Plugin>(a: Seq<P>, b: Seq<P>, kind: PluginType)
    ensures
        ids_of_kind(a + b, kind) == ids_of_kind(a, kind) + ids_of_kind(b, kind),
    decreases b.len(),
{
    if b.len() == 0 {
        assert(a + b =~= a);
        assert(ids_of_kind(a, kind) + ids_of_kind(b, kind) =~= ids_of_kind(a, kind));
    } else {
        assert((a + b).drop_last() =~= a + b.drop_last());
        lemma_ids_of_kind_append(a, b.drop_last(), kind);
        assert((a + b).last() == b.last());
        if b.last().spec_kind() == kind {
            assert(ids_of_kind(a, kind) + ids_of_kind(b, kind) =~= (ids_of_kind(a, kind)
                + ids_of_kind(b.drop_last(), kind)).push(b.last().spec_metadata().id@));
        }
    }
}

/// The id of every plugin of kind `kind` appears in `ids_of_kind`.
pub proof fn lemma_ids_of_kind_contains<P: Plugin>(s: Seq<P>, kind: PluginType, i: int)
    requires
        0 <= i < s.len(),
        s[i].spec_kind() == kind,
    ensures
        ids_of_kind(s, kind).contains(s[i].spec_metadata().id@),
    decreases s.len(),
{
    let id = s[i].spec_metadata().id@;
    if i == s.len() - 1 {
        assert(ids_of_kind(s, kind).last() == id);
    } else {
        lemma_ids_of_kind_contains(s.drop_last(), kind, i);
        let rest = ids_of_kind(s.drop_last(), kind);
        let k = choose|k: int| 0 <= k < rest.len() && rest[k] == id;
        if s.last().spec_kind() == kind {
            assert(ids_of_kind(s, kind)[k] == id);
        }
    }
}

/// Every id that `ids_of_kind` lists is the id of some plugin of `s`.
pub proof fn lemma_ids_of_kind_listed<P: Plugin>(s: Seq<P>, kind: PluginType, id: Seq<char>)
    requires
        ids_of_kind(s, kind).contains(id),
    ensures
        exists|i: int| 0 <= i < s.len() && #[trigger] has_id(s[i], id) && s[i].spec_kind() == kind,
    decreases s.len(),
{
    let rest = ids_of_kind(s.drop_last(), kind);
    if s.last().spec_kind() == kind && s.last().spec_metadata().id@ == id {
        assert(has_id(s[s.len() - 1], id));
    } else {
        if s.last().spec_kind() == kind {
            let k = choose|k: int| 0 <= k < ids_of_kind(s, kind).len() && ids_of_kind(s, kind)[k] == id;
            assert(k < rest.len());
            assert(rest[k] == id);
        }
        lemma_ids_of_kind_listed(s.drop_last(), kind, id);
        let i = choose|i: int| 0 <= i < s.drop_last().len() && #[trigger] has_id(s.drop_last()[i], id)
            && s.drop_last()[i].spec_kind() == kind;
        assert(has_id(s[i], id));
    }
}

/// A `with_*` call on a kind succeeds only for an id that the matching `list_*` method
/// lists, and fails with `NotFound` only for an id that no `list_*` method lists.
pub proof fn lemma_lookup_agrees_with_lists<P: Plugin, R>(
    s: Seq<P>,
    id: Seq<char>,
    kind: PluginType,
    kind_name: Seq<char>,
    r: Result<R, PluginError>,
)
    requires
        lookup_outcome(s, id, kind, kind_name, r),
    ensures
        r is Ok ==> ids_of_kind(s, kind).contains(id),
        r matches Err(PluginError::NotFound(_)) ==> forall|k: PluginType|
            !(#[trigger] ids_of_kind(s, k)).contains(id),
{
    let i = first_with_id(s, id) as int;
    lemma_first_with_id_props(s, id);
    if r is Ok {
        lemma_ids_of_kind_contains(s, kind, i);
    }
    if i == s.len() {
        assert forall|k: PluginType| !(#[trigger] ids_of_kind(s, k)).contains(id) by {
            if ids_of_kind(s, k).contains(id) {
                lemma_ids_of_kind_listed(s, k, id);
            }
        }
    }
}

/// `first_with_id` lies within the sequence, no plugin before it has the id, and the plugin
/// at it, when there is one, has the id.
pub proof fn lemma_first_with_id_props<P: Plugin>(s: Seq<P>, id: Seq<char>)
    ensures
        first_with_id(s, id) <= s.len(),
        forall|j: int| 0 <= j < first_with_id(s, id) ==> !has_id(#[trigger] s[j], id),
        first_with_id(s, id) < s.len() ==> has_id(s[first_with_id(s, id) as int], id),
    decreases s.len(),
{
    if s.len() > 0 && !has_id(s[0], id) {
        let rest = s.drop_first();
        lemma_first_with_id_props(rest, id);
        assert forall|j: int| 0 <= j < first_with_id(s, id) implies !has_id(#[trigger] s[j], id) by {
            if j > 0 {
                assert(s[j] == rest[j - 1]);
            }
        }
    }
}

/// The ids of all plugins of `s`, in order.
pub open spec fn all_ids<P: Plugin>(s: Seq<P>) -> Seq<Seq<char>> {
    s.map_values(|p: P| p.spec_metadata().id@)
}

/// Together the three `list_*` methods list every loaded id exactly as often as it is
/// loaded: the multiset union of their results is the multiset of all loaded ids.
pub proof fn lemma_lists_cover_ids<P: Plugin>(s: Seq<P>)
    ensures
        ids_of_kind(s, PluginType::ContentProvider).to_multiset().add(
            ids_of_kind(s, PluginType::ThemeProvider).to_multiset(),
        ).add(ids_of_kind(s, PluginType::ShortcutProvider).to_multiset())
            == all_ids(s).to_multiset(),
    decreases s.len(),
{
    broadcast use vstd::seq_lib::group_to_multiset_ensures;
    broadcast use vstd::multiset::group_multiset_axioms;

    if s.len() == 0 {
        assert(all_ids(s) =~= Seq::<Seq<char>>::empty());
        assert(ids_of_kind(s, PluginType::ContentProvider).to_multiset().add(
            ids_of_kind(s, PluginType::ThemeProvider).to_multiset(),
        ).add(ids_of_kind(s, PluginType::ShortcutProvider).to_multiset()) =~= all_ids(
            s,
        ).to_multiset());
    } else {
        let rest = s.drop_last();
        lemma_lists_cover_ids(rest);
        let id = s.last().spec_metadata().id@;
        assert(all_ids(s) =~= all_ids(rest).push(id));
        let c = ids_of_kind(rest, PluginType::ContentProvider).to_multiset();
        let t = ids_of_kind(rest, PluginType::ThemeProvider).to_multiset();
        let h = ids_of_kind(rest, PluginType::ShortcutProvider).to_multiset();
        assert(ids_of_kind(s, PluginType::ContentProvider).to_multiset().add(
            ids_of_kind(s, PluginType::ThemeProvider).to_multiset(),
        ).add(ids_of_kind(s, PluginType::ShortcutProvider).to_multiset()) =~= c.add(t).add(
            h,
        ).insert(id));
    }
}

/// The plugin directory never changes. `new` fixes it, the methods that take `&self`
/// cannot change it, and every method that takes `&mut self` (`load_all`, `unload`,
/// `with_content_mut`, `with_shortcut_mut`) ensures that the directory after the call is
/// the one before. So along any run of calls, in which each state of the registry comes
/// from the one before by one such call, every state has the directory of the first.
pub proof fn lemma_dir_never_changes<P: Plugin>(states: Seq<PluginManager<P>>)
    requires
        forall|i: int| 1 <= i < states.len() ==> (#[trigger] states[i]).dir() == states[i - 1].dir(),
    ensures
        forall|i: int| 0 <= i < states.len() ==> (#[trigger] states[i]).dir() == states[0].dir(),
    decreases states.len(),
{
    if states.len() > 1 {
        let prefix = states.drop_last();
        assert forall|i: int| 1 <= i < prefix.len() implies (#[trigger] prefix[i]).dir() == prefix[i
            - 1].dir() by {
            assert(prefix[i] == states[i]);
            assert(prefix[i - 1] == states[i - 1]);
        }
        lemma_dir_never_changes(prefix);
        assert forall|i: int| 0 <= i < states.len() implies (#[trigger] states[i]).dir()
            == states[0].dir() by {
            if i < states.len() - 1 {
                assert(prefix[i] == states[i]);
            } else {
                assert(prefix[i - 1] == states[i - 1]);
            }
        }
    }
}

/// `load_all` adds every plugin that loaded and nothing else, in order: a single success
/// adds its plugin, a single failure adds nothing, and the plugins added for the outcomes
/// `a` followed by `b` are those added for `a` followed by those added for `b`.
pub proof fn lemma_successes_laws<P>(
    a: Seq<Result<P, PluginError>>,
    b: Seq<Result<P, PluginError>>,
    p: P,
    e: PluginError,
)
    ensures
        successes(seq![Ok::<P, PluginError>(p)]) == seq![p],
        successes(seq![Err::<P, PluginError>(e)]) == Seq::<P>::empty(),
        successes(a + b) == successes(a) + successes(b),
        successes(a).len() <= a.len(),
{
    let one_ok = seq![Ok::<P, PluginError>(p)];
    assert(one_ok.drop_last() =~= Seq::<Result<P, PluginError>>::empty());
    let one_err = seq![Err::<P, PluginError>(e)];
    assert(one_err.drop_last() =~= Seq::<Result<P, PluginError>>::empty());
    assert(one_ok.last() == Ok::<P, PluginError>(p));
    assert(successes(one_ok.drop_last()) =~= Seq::<P>::empty());
    assert(successes(one_ok) =~= seq![p]);
    assert(successes(one_err.drop_last()) =~= Seq::<P>::empty());
    lemma_successes_append(a, b);
    lemma_successes_len(a);
}

/// The plugins taken from `a + b` are those taken from `a` followed by those from `b`.
proof fn lemma_successes_append<P>(a: Seq<Result<P, PluginError>>, b: Seq<Result<P, PluginError>>)
    ensures
        successes(a + b) == successes(a) + successes(b),
    decreases b.len(),
{
    if b.len() == 0 {
        assert(a + b =~= a);
        assert(successes(b) =~= Seq::<P>::empty());
        assert(successes(a) + successes(b) =~= successes(a));
    } else {
        assert((a + b).drop_last() =~= a + b.drop_last());
        assert((a + b).last() == b.last());
        lemma_successes_append(a, b.drop_last());
        match b.last() {
            Ok(q) => {
                assert(successes(a) + successes(b) =~= (successes(a) + successes(b.drop_last())).push(
                    q,
                ));
            },
            Err(_) => {},
        }
    }
}

/// At most one plugin is taken per outcome.
proof fn lemma_successes_len<P>(a: Seq<Result<P, PluginError>>)
    ensures
        successes(a).len() <= a.len(),
    decreases a.len(),
{
    if a.len() > 0 {
        lemma_successes_len(a.drop_last());
    }
}

} // verus!
