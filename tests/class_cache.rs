use javavm::{load_class_cached, unload_cached_class, ClassCache, ContextError, VmRegistry};
use jni::objects::{JClass, JObject};

/// Loads `name` the way the library does, with a stand-in for the virtual
/// machine that counts its resolutions and answers `answer`.
fn load_counting(
    cache: &mut ClassCache<u32>,
    name: &str,
    resolutions: &mut u32,
    answer: Option<u32>,
) -> Option<u32> {
    if let Some(class) = cache.lookup(name) {
        return Some(class);
    }
    *resolutions += 1;
    cache.store_resolved(name, answer)
}

#[test]
fn new_cache_is_empty() {
    let cache: ClassCache<u32> = ClassCache::new();
    assert_eq!(cache.lookup("java/lang/String"), None);
}

#[test]
fn store_then_lookup_returns_stored() {
    let mut cache: ClassCache<u32> = ClassCache::new();
    assert_eq!(cache.store_resolved("a", Some(1)), Some(1));
    assert_eq!(cache.store_resolved("b", Some(2)), Some(2));
    assert_eq!(cache.lookup("a"), Some(1));
    assert_eq!(cache.lookup("b"), Some(2));
    assert_eq!(cache.lookup("c"), None);
}

#[test]
fn failed_resolution_is_not_remembered() {
    let mut cache: ClassCache<u32> = ClassCache::new();
    assert_eq!(cache.store_resolved("missing", None), None);
    assert_eq!(cache.lookup("missing"), None);
    let mut resolutions: u32 = 0;
    assert_eq!(load_counting(&mut cache, "missing", &mut resolutions, None), None);
    assert_eq!(load_counting(&mut cache, "missing", &mut resolutions, None), None);
    assert_eq!(resolutions, 2);
}

#[test]
fn storing_again_replaces_the_entry() {
    let mut cache: ClassCache<u32> = ClassCache::new();
    cache.store_resolved("a", Some(1));
    cache.store_resolved("a", Some(5));
    assert_eq!(cache.lookup("a"), Some(5));
    unload_cached_class(&mut cache, "a");
    assert_eq!(cache.lookup("a"), None);
}

#[test]
fn second_load_is_served_from_cache() {
    let mut cache: ClassCache<u32> = ClassCache::new();
    let mut resolutions: u32 = 0;
    assert_eq!(load_counting(&mut cache, "X", &mut resolutions, Some(10)), Some(10));
    assert_eq!(load_counting(&mut cache, "X", &mut resolutions, Some(11)), Some(10));
    assert_eq!(resolutions, 1);
}

#[test]
fn unload_forces_a_new_resolution() {
    let mut cache: ClassCache<u32> = ClassCache::new();
    let mut resolutions: u32 = 0;
    load_counting(&mut cache, "X", &mut resolutions, Some(10));
    unload_cached_class(&mut cache, "X");
    assert_eq!(cache.lookup("X"), None);
    assert_eq!(load_counting(&mut cache, "X", &mut resolutions, Some(11)), Some(11));
    assert_eq!(resolutions, 2);
}

#[test]
fn unload_of_unknown_name_is_a_no_op() {
    let mut cache: ClassCache<u32> = ClassCache::new();
    cache.store_resolved("a", Some(1));
    unload_cached_class(&mut cache, "never-cached");
    assert_eq!(cache.lookup("a"), Some(1));
    assert_eq!(cache.lookup("never-cached"), None);
    let mut empty: ClassCache<u32> = ClassCache::new();
    unload_cached_class(&mut empty, "never-cached");
    assert_eq!(empty.lookup("never-cached"), None);
}

#[test]
fn unload_keeps_other_entries() {
    let mut cache: ClassCache<u32> = ClassCache::new();
    cache.store_resolved("a", Some(1));
    cache.store_resolved("b", Some(2));
    cache.store_resolved("c", Some(3));
    unload_cached_class(&mut cache, "b");
    assert_eq!(cache.lookup("a"), Some(1));
    assert_eq!(cache.lookup("b"), None);
    assert_eq!(cache.lookup("c"), Some(3));
}

#[test]
fn caches_of_two_threads_are_separate() {
    let mut thread_a: ClassCache<u32> = ClassCache::new();
    let mut thread_b: ClassCache<u32> = ClassCache::new();
    let mut resolutions_a: u32 = 0;
    let mut resolutions_b: u32 = 0;
    assert_eq!(load_counting(&mut thread_a, "X", &mut resolutions_a, Some(1)), Some(1));
    assert_eq!(thread_b.lookup("X"), None);
    assert_eq!(load_counting(&mut thread_b, "X", &mut resolutions_b, Some(2)), Some(2));
    assert_eq!(resolutions_a, 1);
    assert_eq!(resolutions_b, 1);
    assert_eq!(thread_a.lookup("X"), Some(1));
}

#[test]
fn load_unload_reload_scenario() {
    let mut cache: ClassCache<u32> = ClassCache::new();
    let mut resolutions: u32 = 0;
    let f1 = load_counting(&mut cache, "pkg.Foo", &mut resolutions, Some(100));
    assert_eq!(f1, Some(100));
    assert_eq!(load_counting(&mut cache, "pkg.Foo", &mut resolutions, Some(200)), f1);
    assert_eq!(resolutions, 1);
    unload_cached_class(&mut cache, "pkg.Foo");
    let f2 = load_counting(&mut cache, "pkg.Foo", &mut resolutions, Some(200));
    assert_eq!(f2, Some(200));
    assert_eq!(resolutions, 2);
    assert_eq!(cache.lookup("pkg.Foo"), Some(200));
}

#[test]
fn load_miss_without_runtime_is_no_runtime() {
    let registry = VmRegistry::new();
    let mut cache: ClassCache<JClass<'_>> = ClassCache::new();
    let r = load_class_cached(&mut cache, &registry, "java/lang/String");
    assert!(matches!(r, Err(ContextError::NoRuntime)));
    assert!(cache.lookup("java/lang/String").is_none());
}

#[test]
fn load_hit_does_not_consult_the_registry() {
    let registry = VmRegistry::new();
    let mut cache: ClassCache<JClass<'_>> = ClassCache::new();
    cache.store_resolved("java/lang/String", Some(JClass::from(JObject::null())));
    let r = load_class_cached(&mut cache, &registry, "java/lang/String");
    assert!(matches!(r, Ok(Some(_))));
    assert!(cache.lookup("java/lang/String").is_some());
    unload_cached_class(&mut cache, "java/lang/String");
    let again = load_class_cached(&mut cache, &registry, "java/lang/String");
    assert!(matches!(again, Err(ContextError::NoRuntime)));
}
