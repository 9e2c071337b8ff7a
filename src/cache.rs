//! A cache from class names to resolved class references, owned by one
//! thread, and the lookup that fills it through the registered virtual
//! machine.
use vstd::prelude::*;

use crate::registry::{ContextError, VmRegistry};
use crate::runtime::find_class;
use jni::objects::JClass;

verus! {

/// The map that a list of entries stands for: each name to the value of its
/// entry.
pub open spec fn entries_map<C>(s: Seq<(String, C)>) -> Map<Seq<char>, C>
    decreases s.len(),
{
    if s.len() == 0 {
        Map::empty()
    } else {
        entries_map(s.drop_last()).insert(s.last().0@, s.last().1)
    }
}

/// No name has two entries.
pub open spec fn unique_names<C>(s: Seq<(String, C)>) -> bool {
    forall|i: int, j: int|
        0 <= i < s.len() && 0 <= j < s.len() && i != j ==> s[i].0@ != s[j].0@
}

/// What a lookup of `name` in `m` finds.
pub open spec fn cached<C>(m: Map<Seq<char>, C>, name: Seq<char>) -> Option<C> {
    if m.contains_key(name) {
        Some(m[name])
    } else {
        None
    }
}

/// How one load of `name` relates the cache `before` it, the cache `after`
/// it, and its result `r`. A cached name is returned as it is, with the cache
/// untouched. Otherwise the name was resolved: a resolved class is cached and
/// returned; a failed resolution, or a missing context, leaves the cache as
/// it was.
pub open spec fn load_outcome<C>(
    before: Map<Seq<char>, C>,
    name: Seq<char>,
    after: Map<Seq<char>, C>,
    r: Result<Option<C>, ContextError>,
) -> bool {
    if before.contains_key(name) {
        r == Ok::<Option<C>, ContextError>(Some(before[name])) && after == before
    } else {
        match r {
            Ok(Some(c)) => after == before.insert(name, c),
            _ => after == before,
        }
    }
}

proof fn lemma_entries_map_domain<C>(s: Seq<(String, C)>, k: Seq<char>)
    ensures
        entries_map(s).contains_key(k) <==> exists|i: int| 0 <= i < s.len() && s[i].0@ == k,
    decreases s.len(),
{
    if s.len() > 0 {
        let t = s.drop_last();
        lemma_entries_map_domain(t, k);
        if entries_map(s).contains_key(k) && s.last().0@ != k {
            let i = choose|i: int| 0 <= i < t.len() && t[i].0@ == k;
            assert(s[i] == t[i]);
        }
        if exists|i: int| 0 <= i < s.len() && s[i].0@ == k {
            let i = choose|i: int| 0 <= i < s.len() && s[i].0@ == k;
            if i < s.len() - 1 {
                assert(t[i] == s[i]);
            }
        }
    }
}

proof fn lemma_entries_map_value<C>(s: Seq<(String, C)>, i: int)
    requires
        unique_names(s),
        0 <= i < s.len(),
    ensures
        entries_map(s).contains_key(s[i].0@),
        entries_map(s)[s[i].0@] == s[i].1,
    decreases s.len(),
{
    let t = s.drop_last();
    if i < s.len() - 1 {
        assert(t[i] == s[i]);
        assert(unique_names(t)) by {
            assert forall|a: int, b: int|
                0 <= a < t.len() && 0 <= b < t.len() && a != b implies t[a].0@ != t[b].0@ by {
                assert(t[a] == s[a] && t[b] == s[b]);
            }
        }
        lemma_entries_map_value(t, i);
        assert(s[i].0@ != s[s.len() - 1].0@);
    }
}

proof fn lemma_entries_map_push<C>(s: Seq<(String, C)>, e: (String, C))
    ensures
        entries_map(s.push(e)) == entries_map(s).insert(e.0@, e.1),
{
    assert(s.push(e).drop_last() =~= s);
}

proof fn lemma_entries_map_remove<C>(s: Seq<(String, C)>, i: int)
    requires
        unique_names(s),
        0 <= i < s.len(),
    ensures
        unique_names(s.remove(i)),
        entries_map(s.remove(i)) == entries_map(s).remove(s[i].0@),
{
    let t = s.remove(i);
    let key = s[i].0@;
    assert forall|a: int| 0 <= a < t.len() implies #[trigger] t[a] == s[if a < i { a } else { a + 1 }] by {}
    assert(unique_names(t)) by {
        assert forall|a: int, b: int|
            0 <= a < t.len() && 0 <= b < t.len() && a != b implies t[a].0@ != t[b].0@ by {
            assert(t[a] == s[if a < i { a } else { a + 1 }]);
            assert(t[b] == s[if b < i { b } else { b + 1 }]);
        }
    }
    let lhs = entries_map(t);
    let rhs = entries_map(s).remove(key);
    assert forall|k: Seq<char>| lhs.contains_key(k) <==> rhs.contains_key(k) by {
        lemma_entries_map_domain(t, k);
        lemma_entries_map_domain(s, k);
        if lhs.contains_key(k) {
            let a = choose|a: int| 0 <= a < t.len() && t[a].0@ == k;
            let j = if a < i { a } else { a + 1 };
            assert(t[a] == s[j]);
        }
        if rhs.contains_key(k) {
            let j = choose|j: int| 0 <= j < s.len() && s[j].0@ == k;
            let a = if j < i { j } else { j - 1 };
            assert(t[a] == s[j]);
        }
    }
    assert forall|k: Seq<char>| lhs.contains_key(k) implies lhs[k] == rhs[k] by {
        lemma_entries_map_domain(t, k);
        let a = choose|a: int| 0 <= a < t.len() && t[a].0@ == k;
        let j = if a < i { a } else { a + 1 };
        assert(t[a] == s[j]);
        lemma_entries_map_value(t, a);
        lemma_entries_map_value(s, j);
    }
    assert(lhs =~= rhs);
}

proof fn lemma_entries_map_update<C>(s: Seq<(String, C)>, i: int, e: (String, C))
    requires
        unique_names(s),
        0 <= i < s.len(),
        e.0@ == s[i].0@,
    ensures
        unique_names(s.update(i, e)),
        entries_map(s.update(i, e)) == entries_map(s).insert(e.0@, e.1),
{
    let t = s.update(i, e);
    assert(unique_names(t)) by {
        assert forall|a: int, b: int|
            0 <= a < t.len() && 0 <= b < t.len() && a != b implies t[a].0@ != t[b].0@ by {
            assert(t[a].0@ == s[a].0@ && t[b].0@ == s[b].0@);
        }
    }
    let lhs = entries_map(t);
    let rhs = entries_map(s).insert(e.0@, e.1);
    assert forall|k: Seq<char>| lhs.contains_key(k) <==> rhs.contains_key(k) by {
        lemma_entries_map_domain(t, k);
        lemma_entries_map_domain(s, k);
        if lhs.contains_key(k) {
            let a = choose|a: int| 0 <= a < t.len() && t[a].0@ == k;
            assert(t[a].0@ == s[a].0@);
        }
        if rhs.contains_key(k) && k != e.0@ {
            let j = choose|j: int| 0 <= j < s.len() && s[j].0@ == k;
            assert(t[j].0@ == s[j].0@);
        }
        assert(t[i] == e);
    }
    assert forall|k: Seq<char>| lhs.contains_key(k) implies lhs[k] == rhs[k] by {
        lemma_entries_map_domain(t, k);
        let a = choose|a: int| 0 <= a < t.len() && t[a].0@ == k;
        lemma_entries_map_value(t, a);
        if a != i {
            assert(t[a] == s[a]);
            lemma_entries_map_value(s, a);
        }
    }
    assert(lhs =~= rhs);
}

/// Resolved class references by name, at most one per name. Each thread
/// owns its own cache; an entry stays until it is unloaded.
pub struct ClassCache<C> {
    entries: Vec<(String, C)>,
}

impl<C> View for ClassCache<C> {
    type V = Map<Seq<char>, C>;

    closed spec fn view(&self) -> Map<Seq<char>, C> {
        entries_map(self.entries@)
    }
}

impl<C> ClassCache<C> {
    /// Well-formed: no name has two entries.
    pub closed spec fn wf(&self) -> bool {
        unique_names(self.entries@)
    }
}

impl<C: Copy> ClassCache<C> {
    /// An empty cache.
    pub fn new() -> (r: ClassCache<C>)
        ensures
            r.wf(),
            r@ == Map::<Seq<char>, C>::empty(),
    {
        ClassCache { entries: Vec::new() }
    }

    /// The index of the entry for `key`, if there is one.
    fn position(&self, key: &String) -> (r: Option<usize>)
        requires
            self.wf(),
        ensures
            match r {
                Some(i) => i < self.entries@.len() && self.entries@[i as int].0@ == key@,
                None => !self@.contains_key(key@),
            },
    {
        let mut i: usize = 0;
        while i < self.entries.len()
            invariant
                i <= self.entries@.len(),
                forall|j: int| 0 <= j < i ==> self.entries@[j].0@ != key@,
            decreases self.entries@.len() - i,
        {
            if self.entries[i].0 == *key {
                return Some(i);
            }
            i += 1;
        }
        proof {
            lemma_entries_map_domain(self.entries@, key@);
        }
        None
    }

    /// The reference cached under `name`, if any. Never consults the
    /// virtual machine.
    pub fn lookup(&self, name: &str) -> (r: Option<C>)
        requires
            self.wf(),
        ensures
            r == cached(self@, name@),
    {
        let key = name.to_owned();
        match self.position(&key) {
            Some(i) => {
                proof {
                    lemma_entries_map_value(self.entries@, i as int);
                }
                Some(self.entries[i].1)
            },
            None => None,
        }
    }

    /// Takes the outcome of resolving `name` and returns it, caching a
    /// resolved reference under `name` (replacing any earlier one). A failed
    /// resolution is not remembered.
    pub fn store_resolved(&mut self, name: &str, resolved: Option<C>) -> (r: Option<C>)
        requires
            old(self).wf(),
        ensures
            final(self).wf(),
            r == resolved,
            final(self)@ == match resolved {
                Some(c) => old(self)@.insert(name@, c),
                None => old(self)@,
            },
    {
        match resolved {
            None => None,
            Some(c) => {
                let key = name.to_owned();
                match self.position(&key) {
                    Some(i) => {
                        proof {
                            lemma_entries_map_update(self.entries@, i as int, (key, c));
                        }
                        self.entries[i] = (key, c);
                    },
                    None => {
                        proof {
                            lemma_entries_map_push(self.entries@, (key, c));
                            assert forall|j: int| 0 <= j < self.entries@.len() implies
                                self.entries@[j].0@ != key@ by {
                                lemma_entries_map_domain(self.entries@, key@);
                            }
                        }
                        self.entries.push((key, c));
                    },
                }
                Some(c)
            },
        }
    }
}

/// The class named `name`, from `cache` where it is there; otherwise
/// resolved through the registered virtual machine and, when found, cached.
/// A cached name is returned without consulting the registry. On a miss,
/// `NoRuntime` comes exactly when nothing is registered, and `AttachFailed`
/// when the calling thread could not be attached; `Ok(None)` is a failed
/// resolution, which is not remembered.
pub fn load_class_cached<'a>(
    cache: &mut ClassCache<JClass<'a>>,
    registry: &'a VmRegistry,
    name: &str,
) -> (r: Result<Option<JClass<'a>>, ContextError>)
    requires
        old(cache).wf(),
    ensures
        final(cache).wf(),
        load_outcome(old(cache)@, name@, final(cache)@, r),
        r == Err::<Option<JClass<'a>>, ContextError>(ContextError::NoRuntime) <==> (
        !old(cache)@.contains_key(name@) && registry@ is None),
{
    if let Some(class) = cache.lookup(name) {
        return Ok(Some(class));
    }
    let env = match registry.context() {
        Ok(env) => env,
        Err(e) => return Err(e),
    };
    let resolved = match find_class(&env, name) {
        Ok(class) => Some(class),
        Err(_) => None,
    };
    Ok(cache.store_resolved(name, resolved))
}

/// Removes the entry for `name` from `cache`, if there is one; otherwise
/// the cache stays as it is.
pub fn unload_cached_class<C: Copy>(cache: &mut ClassCache<C>, name: &str)
    requires
        old(cache).wf(),
    ensures
        final(cache).wf(),
        final(cache)@ == old(cache)@.remove(name@),
{
    let key = name.to_owned();
    match cache.position(&key) {
        Some(i) => {
            proof {
                lemma_entries_map_remove(cache.entries@, i as int);
            }
            cache.entries.remove(i);
        },
        None => {
            assert(cache@.remove(name@) =~= cache@);
        },
    }
}

/// Two loads of one name in a row: once the first has produced a class, the
/// second finds that class in the cache and returns it, leaving the cache as
/// it was, so no resolution takes place.
pub proof fn lemma_second_load_hits<C>(
    before: Map<Seq<char>, C>,
    name: Seq<char>,
    mid: Map<Seq<char>, C>,
    r1: Result<Option<C>, ContextError>,
    after: Map<Seq<char>, C>,
    r2: Result<Option<C>, ContextError>,
)
    requires
        load_outcome(before, name, mid, r1),
        r1 matches Ok(Some(_)),
        load_outcome(mid, name, after, r2),
    ensures
        mid.contains_key(name),
        r2 == r1,
        after == mid,
{
}

/// After `name` is unloaded, the next load of it is a miss: the name is
/// resolved again, and whatever class that resolution yields is returned and
/// cached.
pub proof fn lemma_load_after_unload_resolves<C>(
    before: Map<Seq<char>, C>,
    name: Seq<char>,
    after: Map<Seq<char>, C>,
    r: Result<Option<C>, ContextError>,
)
    requires
        load_outcome(before.remove(name), name, after, r),
    ensures
        !before.remove(name).contains_key(name),
        match r {
            Ok(Some(c)) => after == before.remove(name).insert(name, c),
            _ => after == before.remove(name),
        },
{
}

/// Unloading a name that is not cached leaves the cache as it was.
pub proof fn lemma_unload_absent_is_noop<C>(before: Map<Seq<char>, C>, name: Seq<char>)
    requires
        !before.contains_key(name),
    ensures
        before.remove(name) == before,
{
    assert(before.remove(name) =~= before);
}

/// A cache that was just made holds nothing, whatever another cache holds:
/// the first load of a name on it resolves that name.
pub proof fn lemma_fresh_cache_resolves<C>(
    name: Seq<char>,
    after: Map<Seq<char>, C>,
    r: Result<Option<C>, ContextError>,
)
    requires
        load_outcome(Map::empty(), name, after, r),
    ensures
        match r {
            Ok(Some(c)) => after == Map::<Seq<char>, C>::empty().insert(name, c),
            _ => after == Map::<Seq<char>, C>::empty(),
        },
{
}

} // verus!
