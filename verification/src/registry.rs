//! The registry of plugin pools: the pool of each plugin, and the rules
//! that say which chain of plugins a file goes through.
//!
//! A file whose name is associated with a chain goes through that chain.
//! Otherwise the extension of its name decides. A file that no rule matches
//! goes through no plugin.

use crate::bucket::texts;
use crate::pool::Plugin;
use crate::pool::PluginPool;
use crate::sync::share;
use std::sync::Arc;
use vstd::prelude::*;
use vstd::string::StrSliceExecFns;

verus! {

/// A rule: the files with this name, or with this extension, go through
/// the plugins of these names, in order.
pub struct Association {
    pub key: String,
    pub plugin_names: Vec<String>,
}

/// The mathematical content of a rule.
pub struct AssociationView {
    pub key: Seq<char>,
    pub chain: Seq<Seq<char>>,
}

impl View for Association {
    type V = AssociationView;

    open spec fn view(&self) -> AssociationView {
        AssociationView { key: self.key@, chain: texts(self.plugin_names@) }
    }
}

/// The mathematical content of a registry.
pub struct PluginPoolsView {
    /// The name of each pool, in the order of the pools.
    pub pool_names: Seq<Seq<char>>,
    /// The rules on file names, the one that is tried first first.
    pub file_names: Seq<AssociationView>,
    /// The rules on extensions, the one that is tried first first.
    pub extensions: Seq<AssociationView>,
}

/// The views of a sequence of rules.
pub open spec fn association_views(rules: Seq<Association>) -> Seq<AssociationView> {
    rules.map_values(|rule: Association| rule@)
}

/// Whether a character separates the directories of a path.
pub open spec fn is_separator(c: char) -> bool {
    c == '/' || c == '\\'
}

/// The position at which the file name of a path starts: after its last
/// separator.
pub open spec fn file_name_start(path: Seq<char>) -> int
    decreases path.len(),
{
    if path.len() == 0 {
        0
    } else if is_separator(path.last()) {
        path.len() as int
    } else {
        file_name_start(path.drop_last())
    }
}

/// The position of the last dot of a name, if it has one.
pub open spec fn last_dot(name: Seq<char>) -> Option<int>
    decreases name.len(),
{
    if name.len() == 0 {
        None
    } else if name.last() == '.' {
        Some(name.len() - 1)
    } else {
        last_dot(name.drop_last())
    }
}

/// The file name of a path.
pub open spec fn file_name_of(path: Seq<char>) -> Seq<char> {
    path.skip(file_name_start(path))
}

/// The extension of a file name: what follows its last dot, if that dot is
/// not its first character.
pub open spec fn extension_of(name: Seq<char>) -> Option<Seq<char>> {
    match last_dot(name) {
        Some(dot) => if dot > 0 {
            Some(name.skip(dot + 1))
        } else {
            None
        },
        None => None,
    }
}

/// The chain of the first rule with the given key.
pub open spec fn lookup(rules: Seq<AssociationView>, key: Seq<char>) -> Option<Seq<Seq<char>>>
    decreases rules.len(),
{
    if rules.len() == 0 {
        None
    } else if rules[0].key == key {
        Some(rules[0].chain)
    } else {
        lookup(rules.skip(1), key)
    }
}

/// The chain of plugin names that a file goes through.
pub open spec fn resolve_chain(registry: PluginPoolsView, path: Seq<char>) -> Seq<Seq<char>> {
    let name = file_name_of(path);
    match lookup(registry.file_names, name) {
        Some(chain) => chain,
        None => match extension_of(name) {
            Some(extension) => match lookup(registry.extensions, extension) {
                Some(chain) => chain,
                None => Seq::empty(),
            },
            None => Seq::empty(),
        },
    }
}

/// The position of the first pool with the given name.
pub open spec fn pool_index(pool_names: Seq<Seq<char>>, name: Seq<char>) -> Option<int>
    decreases pool_names.len(),
{
    if pool_names.len() == 0 {
        None
    } else if pool_names[0] == name {
        Some(0)
    } else {
        match pool_index(pool_names.skip(1), name) {
            Some(index) => Some(index + 1),
            None => None,
        }
    }
}

/// The pools of a chain of plugin names: for each name the first pool of
/// that name.
pub open spec fn pools_of_chain<P: Plugin>(
    pools: Seq<Arc<PluginPool<P>>>,
    chain: Seq<Seq<char>>,
) -> Seq<Arc<PluginPool<P>>> {
    Seq::new(
        chain.len(),
        |i: int| pools[pool_index(crate::bucket::pool_names(pools), chain[i]).unwrap()],
    )
}

/// Whether every name of the chain is the name of a pool.
pub open spec fn chain_known(pool_names: Seq<Seq<char>>, chain: Seq<Seq<char>>) -> bool {
    forall|i: int| 0 <= i < chain.len() ==> pool_index(pool_names, #[trigger] chain[i]) is Some
}

/// Whether every rule names pools only.
pub open spec fn rules_known(pool_names: Seq<Seq<char>>, rules: Seq<AssociationView>) -> bool {
    forall|i: int| 0 <= i < rules.len() ==> chain_known(pool_names, (#[trigger] rules[i]).chain)
}

/// Every plugin that a rule names has a pool.
pub open spec fn registry_well_formed(registry: PluginPoolsView) -> bool {
    &&& registry.pool_names.no_duplicates()
    &&& rules_known(registry.pool_names, registry.file_names)
    &&& rules_known(registry.pool_names, registry.extensions)
}

/// The pools without those that have the name of a pool before them.
pub open spec fn first_of_each_name<P: Plugin>(pools: Seq<Arc<PluginPool<P>>>) -> Seq<
    Arc<PluginPool<P>>,
>
    decreases pools.len(),
{
    if pools.len() == 0 {
        pools
    } else {
        let before = first_of_each_name(pools.drop_last());
        if crate::bucket::pool_names(before).contains(pools.last().spec_name()) {
            before
        } else {
            before.push(pools.last())
        }
    }
}

/// Where no two pools have one name, a name is the name of the pool at a
/// position exactly if `pool_index` finds that position.
pub proof fn lemma_pool_of_name(pool_names: Seq<Seq<char>>, name: Seq<char>, index: int)
    requires
        pool_names.no_duplicates(),
        0 <= index < pool_names.len(),
    ensures
        pool_names[index] == name <==> pool_index(pool_names, name) == Some(index),
{
    lemma_pool_index(pool_names, name);
}

/// `pool_index` finds a position of the sequence, and the name at it.
pub proof fn lemma_pool_index(pool_names: Seq<Seq<char>>, name: Seq<char>)
    ensures
        pool_index(pool_names, name) matches Some(index) ==> 0 <= index < pool_names.len()
            && pool_names[index] == name && forall|i: int|
            0 <= i < index ==> pool_names[i] != name,
        pool_index(pool_names, name) is None ==> forall|i: int|
            0 <= i < pool_names.len() ==> pool_names[i] != name,
    decreases pool_names.len(),
{
    if pool_names.len() > 0 && pool_names[0] != name {
        lemma_pool_index(pool_names.skip(1), name);
        assert forall|i: int| 1 <= i < pool_names.len() implies pool_names[i]
            == pool_names.skip(1)[i - 1] by {}
    }
}

/// A chain that a lookup finds is the chain of one of the rules.
pub proof fn lemma_lookup_known(
    pool_names: Seq<Seq<char>>,
    rules: Seq<AssociationView>,
    key: Seq<char>,
)
    requires
        rules_known(pool_names, rules),
    ensures
        lookup(rules, key) matches Some(chain) ==> chain_known(pool_names, chain),
    decreases rules.len(),
{
    if rules.len() > 0 {
        assert(chain_known(pool_names, rules[0].chain));
        if rules[0].key != key {
            assert forall|i: int| 0 <= i < rules.skip(1).len() implies chain_known(
                pool_names,
                (#[trigger] rules.skip(1)[i]).chain,
            ) by {
                assert(rules.skip(1)[i] == rules[i + 1]);
            }
            lemma_lookup_known(pool_names, rules.skip(1), key);
        }
    }
}

/// The characters of a string.
fn chars_of(text: &str) -> (chars: Vec<char>)
    ensures
        chars@ == text@,
{
    let len = text.unicode_len();
    let mut chars: Vec<char> = Vec::new();
    let mut i: usize = 0;
    while i < len
        invariant
            i <= len,
            len == text@.len(),
            chars@ == text@.take(i as int),
        decreases len - i,
    {
        chars.push(text.get_char(i));
        assert(text@.take(i + 1) == text@.take(i as int).push(text@[i as int]));
        i += 1;
    }
    assert(text@.take(len as int) == text@);
    chars
}

/// Whether the characters from `from` on are those of `key`.
fn tail_is(chars: &Vec<char>, from: usize, key: &String) -> (same: bool)
    requires
        from <= chars@.len(),
    ensures
        same == (chars@.skip(from as int) == key@),
{
    let key_chars = chars_of(key.as_str());
    if key_chars.len() != chars.len() - from {
        return false;
    }
    let mut i: usize = 0;
    while i < key_chars.len()
        invariant
            i <= key_chars.len(),
            from <= chars.len(),
            key_chars.len() == chars.len() - from,
            key_chars@ == key@,
            forall|j: int| 0 <= j < i ==> key_chars@[j] == chars@[from + j],
        decreases key_chars.len() - i,
    {
        if key_chars[i] != chars[from + i] {
            assert(chars@.skip(from as int)[i as int] != key_chars@[i as int]);
            return false;
        }
        i += 1;
    }
    assert(chars@.skip(from as int) =~= key_chars@);
    true
}

fn copy_names(names: &Vec<String>) -> (copy: Vec<String>)
    ensures
        texts(copy@) == texts(names@),
{
    let mut copy: Vec<String> = Vec::new();
    let mut i: usize = 0;
    while i < names.len()
        invariant
            i <= names.len(),
            texts(copy@) == texts(names@).take(i as int),
        decreases names.len() - i,
    {
        let name = names[i].clone();
        assert(name@ == texts(names@)[i as int]);
        copy.push(name);
        assert(texts(copy@) =~= texts(names@).take(i as int).push(name@));
        assert(texts(names@).take(i + 1) =~= texts(names@).take(i as int).push(name@));
        i += 1;
    }
    assert(texts(names@).take(names@.len() as int) == texts(names@));
    copy
}

/// The names of the first rule whose key is what `chars` holds from `from`
/// on.
fn find_rule(rules: &Vec<Association>, chars: &Vec<char>, from: usize) -> (found: Option<
    Vec<String>,
>)
    requires
        from <= chars@.len(),
    ensures
        match found {
            Some(names) => lookup(association_views(rules@), chars@.skip(from as int)) == Some(
                texts(names@),
            ),
            None => lookup(association_views(rules@), chars@.skip(from as int)) is None,
        },
{
    let ghost all = association_views(rules@);
    let ghost key = chars@.skip(from as int);
    let mut i: usize = 0;
    assert(all.skip(0) == all);
    while i < rules.len()
        invariant
            i <= rules.len(),
            from <= chars@.len(),
            all == association_views(rules@),
            key == chars@.skip(from as int),
            lookup(all, key) == lookup(all.skip(i as int), key),
        decreases rules.len() - i,
    {
        assert(all.skip(i as int)[0] == rules@[i as int]@);
        if tail_is(chars, from, &rules[i].key) {
            return Some(copy_names(&rules[i].plugin_names));
        }
        assert(all.skip(i as int).skip(1) == all.skip(i + 1));
        i += 1;
    }
    None
}

/// The registry: the pools, and the rules that associate files with chains
/// of plugins.
#[verifier::reject_recursive_types(P)]
pub struct PluginPools<P: Plugin> {
    pools: Vec<Arc<PluginPool<P>>>,
    file_names: Vec<Association>,
    extensions: Vec<Association>,
}

impl<P: Plugin> View for PluginPools<P> {
    type V = PluginPoolsView;

    closed spec fn view(&self) -> PluginPoolsView {
        PluginPoolsView {
            pool_names: crate::bucket::pool_names(self.pools@),
            file_names: association_views(self.file_names@),
            extensions: association_views(self.extensions@),
        }
    }
}

impl<P: Plugin> PluginPools<P> {
    #[verifier::type_invariant]
    spec fn type_inv(self) -> bool {
        registry_well_formed(self@)
    }

    /// The pools of the registry, in order.
    pub closed spec fn spec_pools(&self) -> Seq<Arc<PluginPool<P>>> {
        self.pools@
    }

    /// A registry of the given pools, without rules. A plugin has one pool:
    /// of several pools with one name the first is kept.
    pub fn new(pools: Vec<Arc<PluginPool<P>>>) -> (registry: Self)
        ensures
            registry_well_formed(registry@),
            registry.spec_pools() == first_of_each_name(pools@),
            registry@.pool_names == crate::bucket::pool_names(registry.spec_pools()),
            registry@.file_names.len() == 0,
            registry@.extensions.len() == 0,
    {
        let ghost all = pools@;
        let ghost mut taken: int = 0;
        let mut given = pools;
        let mut kept: Vec<Arc<PluginPool<P>>> = Vec::new();
        assert(all.take(0) =~= Seq::<Arc<PluginPool<P>>>::empty());
        assert(all.skip(0) =~= all);
        while given.len() > 0
            invariant
                0 <= taken <= all.len(),
                given@ == all.skip(taken),
                kept@ == first_of_each_name(all.take(taken)),
                crate::bucket::pool_names(kept@).no_duplicates(),
            decreases given.len(),
        {
            let ghost names = crate::bucket::pool_names(kept@);
            let pool = given.remove(0);
            let name = pool.name().to_owned();
            let mut known = false;
            let mut j: usize = 0;
            while j < kept.len()
                invariant
                    j <= kept.len(),
                    names == crate::bucket::pool_names(kept@),
                    name@ == pool.spec_name(),
                    known <==> exists|k: int| 0 <= k < j && #[trigger] names[k] == name@,
                decreases kept.len() - j,
            {
                if kept[j].has_name(&name) {
                    known = true;
                    assert(names[j as int] == name@);
                }
                j += 1;
            }
            proof {
                let next = all.take(taken + 1);
                assert(next.drop_last() =~= all.take(taken));
                assert(next.last() == pool);
                assert(given@ =~= all.skip(taken + 1));
                assert(known <==> names.contains(name@));
            }
            if !known {
                kept.push(pool);
                proof {
                    let longer = crate::bucket::pool_names(kept@);
                    assert(longer =~= names.push(name@));
                    assert forall|a: int, b: int|
                        0 <= a < longer.len() && 0 <= b < longer.len() && a != b implies longer[a]
                        != longer[b] by {
                        if a < names.len() && b < names.len() {
                            assert(longer[a] == names[a] && longer[b] == names[b]);
                        } else if a < names.len() {
                            assert(longer[a] == names[a]);
                        } else {
                            assert(longer[b] == names[b]);
                        }
                    }
                }
            }
            proof {
                taken = taken + 1;
            }
        }
        assert(all.take(all.len() as int) =~= all);
        PluginPools { pools: kept, file_names: Vec::new(), extensions: Vec::new() }
    }

    /// The pool of the plugin `name`: the first one of that name.
    pub fn get_pool(&self, name: &str) -> (pool: Option<Arc<PluginPool<P>>>)
        ensures
            registry_well_formed(self@),
            match pool {
                Some(pool) => pool_index(self@.pool_names, name@) matches Some(index)
                    && pool == self.spec_pools()[index] && pool.spec_name() == name@,
                None => pool_index(self@.pool_names, name@) is None,
            },
    {
        proof {
            use_type_invariant(self);
        }
        let wanted = name.to_owned();
        let ghost names = self@.pool_names;
        let mut i: usize = 0;
        while i < self.pools.len()
            invariant
                i <= self.pools.len(),
                registry_well_formed(self@),
                names == self@.pool_names,
                names.len() == self.pools@.len(),
                wanted@ == name@,
                forall|j: int| 0 <= j < i ==> names[j] != name@,
            decreases self.pools.len() - i,
        {
            assert(names[i as int] == self.pools@[i as int].spec_name());
            if self.pools[i].has_name(&wanted) {
                proof {
                    lemma_pool_index(names, name@);
                }
                return Some(share(&self.pools[i]));
            }
            i += 1;
        }
        proof {
            lemma_pool_index(names, name@);
        }
        None
    }

    /// Whether every name of the chain is the name of a pool; if not, the
    /// first name that is not.
    fn first_unknown(&self, plugin_names: &Vec<String>) -> (unknown: Option<String>)
        ensures
            unknown is None <==> chain_known(self@.pool_names, texts(plugin_names@)),
            unknown matches Some(name) ==> exists|i: int|
                0 <= i < plugin_names@.len() && #[trigger] texts(plugin_names@)[i] == name@
                    && pool_index(self@.pool_names, name@) is None,
    {
        let mut i: usize = 0;
        while i < plugin_names.len()
            invariant
                i <= plugin_names.len(),
                forall|j: int|
                    0 <= j < i ==> pool_index(
                        self@.pool_names,
                        #[trigger] texts(plugin_names@)[j],
                    ) is Some,
            decreases plugin_names.len() - i,
        {
            assert(texts(plugin_names@)[i as int] == plugin_names@[i as int]@);
            if self.get_pool(plugin_names[i].as_str()).is_none() {
                return Some(plugin_names[i].clone());
            }
            i += 1;
        }
        None
    }

    /// Adds the rule that the files named `file_name` go through the given
    /// plugins. The rule is refused, with the first name that has no pool,
    /// unless every plugin has one.
    pub fn associate_file_name(&mut self, file_name: String, plugin_names: Vec<String>) -> (added:
        Result<(), String>)
        ensures
            registry_well_formed(final(self)@),
            final(self).spec_pools() == old(self).spec_pools(),
            final(self)@.pool_names == old(self)@.pool_names,
            final(self)@.extensions == old(self)@.extensions,
            added is Ok <==> chain_known(old(self)@.pool_names, texts(plugin_names@)),
            added is Ok ==> final(self)@.file_names == old(self)@.file_names.push(
                AssociationView { key: file_name@, chain: texts(plugin_names@) },
            ),
            added matches Err(name) ==> final(self)@ == old(self)@ && pool_index(
                old(self)@.pool_names,
                name@,
            ) is None,
    {
        proof {
            use_type_invariant(&*self);
        }
        match self.first_unknown(&plugin_names) {
            Some(name) => Err(name),
            None => {
                let mut rules: Vec<Association> = Vec::new();
                std::mem::swap(&mut self.file_names, &mut rules);
                let ghost before = association_views(rules@);
                rules.push(Association { key: file_name, plugin_names });
                proof {
                    assert(association_views(rules@) =~= before.push(
                        AssociationView { key: file_name@, chain: texts(plugin_names@) },
                    ));
                    assert forall|i: int| 0 <= i < rules@.len() implies chain_known(
                        self@.pool_names,
                        (#[trigger] association_views(rules@)[i]).chain,
                    ) by {
                        if i < before.len() {
                            assert(association_views(rules@)[i] == before[i]);
                        }
                    }
                }
                std::mem::swap(&mut self.file_names, &mut rules);
                Ok(())
            },
        }
    }

    /// Adds the rule that the files with the extension `extension` (given
    /// without its dot) go through the given plugins. The rule is refused,
    /// with the first name that has no pool, unless every plugin has one.
    pub fn associate_extension(&mut self, extension: String, plugin_names: Vec<String>) -> (added:
        Result<(), String>)
        ensures
            registry_well_formed(final(self)@),
            final(self).spec_pools() == old(self).spec_pools(),
            final(self)@.pool_names == old(self)@.pool_names,
            final(self)@.file_names == old(self)@.file_names,
            added is Ok <==> chain_known(old(self)@.pool_names, texts(plugin_names@)),
            added is Ok ==> final(self)@.extensions == old(self)@.extensions.push(
                AssociationView { key: extension@, chain: texts(plugin_names@) },
            ),
            added matches Err(name) ==> final(self)@ == old(self)@ && pool_index(
                old(self)@.pool_names,
                name@,
            ) is None,
    {
        proof {
            use_type_invariant(&*self);
        }
        match self.first_unknown(&plugin_names) {
            Some(name) => Err(name),
            None => {
                let mut rules: Vec<Association> = Vec::new();
                std::mem::swap(&mut self.extensions, &mut rules);
                let ghost before = association_views(rules@);
                rules.push(Association { key: extension, plugin_names });
                proof {
                    assert(association_views(rules@) =~= before.push(
                        AssociationView { key: extension@, chain: texts(plugin_names@) },
                    ));
                    assert forall|i: int| 0 <= i < rules@.len() implies chain_known(
                        self@.pool_names,
                        (#[trigger] association_views(rules@)[i]).chain,
                    ) by {
                        if i < before.len() {
                            assert(association_views(rules@)[i] == before[i]);
                        }
                    }
                }
                std::mem::swap(&mut self.extensions, &mut rules);
                Ok(())
            },
        }
    }

    /// The names of the plugins that the file goes through, in order: none
    /// if no rule matches. Each of them is the name of a pool.
    pub fn get_plugin_names_from_file_name(&self, file_name: &str) -> (names: Vec<String>)
        ensures
            registry_well_formed(self@),
            texts(names@) == resolve_chain(self@, file_name@),
            chain_known(self@.pool_names, texts(names@)),
    {
        proof {
            use_type_invariant(self);
        }
        let chars = chars_of(file_name);
        // the file name starts after the last separator
        let mut start: usize = 0;
        let mut dot: Option<usize> = None;
        let mut i: usize = 0;
        while i < chars.len()
            invariant
                i <= chars.len(),
                start <= i,
                start == file_name_start(chars@.take(i as int)),
                match dot {
                    Some(at) => start <= at < i && last_dot(
                        chars@.take(i as int).skip(start as int),
                    ) == Some(at - start),
                    None => last_dot(chars@.take(i as int).skip(start as int)) is None,
                },
            decreases chars.len() - i,
        {
            let c = chars[i];
            proof {
                let next = chars@.take(i + 1);
                assert(next.drop_last() == chars@.take(i as int));
                assert(next.last() == c);
                if !is_separator(c) {
                    assert(next.skip(start as int).drop_last() == chars@.take(i as int).skip(
                        start as int,
                    ));
                    assert(next.skip(start as int).last() == c);
                } else {
                    assert(next.skip(i + 1).len() == 0);
                }
            }
            if c == '/' || c == '\\' {
                start = i + 1;
                dot = None;
            } else if c == '.' {
                dot = Some(i);
            }
            i += 1;
        }
        assert(chars@.take(chars@.len() as int) == chars@);
        proof {
            lemma_lookup_known(self@.pool_names, self@.file_names, chars@.skip(start as int));
        }
        match find_rule(&self.file_names, &chars, start) {
            Some(names) => names,
            None => {
                match dot {
                    Some(at) => {
                        if at > start {
                            assert(chars@.skip(start as int).skip(at - start + 1) == chars@.skip(
                                at + 1,
                            ));
                            proof {
                                lemma_lookup_known(
                                    self@.pool_names,
                                    self@.extensions,
                                    chars@.skip(at + 1),
                                );
                            }
                            match find_rule(&self.extensions, &chars, at + 1) {
                                Some(names) => names,
                                None => Vec::new(),
                            }
                        } else {
                            Vec::new()
                        }
                    },
                    None => Vec::new(),
                }
            },
        }
    }

    /// The pools of a chain of plugin names, in order; nothing if one of
    /// the names has no pool.
    pub fn get_pools(&self, plugin_names: &Vec<String>) -> (pools: Option<Vec<Arc<PluginPool<P>>>>)
        ensures
            registry_well_formed(self@),
            pools is Some <==> chain_known(self@.pool_names, texts(plugin_names@)),
            pools matches Some(pools) ==> crate::bucket::pool_names(pools@) == texts(
                plugin_names@,
            ) && pools@ == pools_of_chain(self.spec_pools(), texts(plugin_names@)),
    {
        proof {
            use_type_invariant(self);
        }
        let mut pools: Vec<Arc<PluginPool<P>>> = Vec::new();
        let mut i: usize = 0;
        while i < plugin_names.len()
            invariant
                i <= plugin_names.len(),
                registry_well_formed(self@),
                self@.pool_names == crate::bucket::pool_names(self.spec_pools()),
                pools@.len() == i,
                forall|j: int|
                    0 <= j < i ==> (#[trigger] pools@[j]) == pools_of_chain(
                        self.spec_pools(),
                        texts(plugin_names@),
                    )[j],
                crate::bucket::pool_names(pools@) == texts(plugin_names@).take(i as int),
                forall|j: int|
                    0 <= j < i ==> pool_index(
                        self@.pool_names,
                        #[trigger] texts(plugin_names@)[j],
                    ) is Some,
            decreases plugin_names.len() - i,
        {
            assert(texts(plugin_names@)[i as int] == plugin_names@[i as int]@);
            match self.get_pool(plugin_names[i].as_str()) {
                Some(pool) => {
                    let ghost before = crate::bucket::pool_names(pools@);
                    pools.push(pool);
                    assert(crate::bucket::pool_names(pools@) =~= before.push(pool.spec_name()));
                    assert(texts(plugin_names@).take(i + 1) =~= before.push(
                        texts(plugin_names@)[i as int],
                    ));
                },
                None => {
                    return None;
                },
            }
            i += 1;
        }
        assert(texts(plugin_names@).take(plugin_names@.len() as int) == texts(plugin_names@));
        assert(pools@ =~= pools_of_chain(self.spec_pools(), texts(plugin_names@)));
        Some(pools)
    }
}

} // verus!
