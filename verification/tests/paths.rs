use xiss::config::{
    default_config_map_lock_path, default_config_map_path, default_include_path,
    default_output_path, Config, ConfigMap, ConfigMapExclude,
};
use xiss::paths::{
    has_module_extension, max_modified_time_3, path_to_module_id, should_compile, should_update,
};

#[test]
fn config_defaults() {
    let config = Config::default();
    assert_eq!(config.output, "build/css/");
    assert_eq!(config.include_path, "css");
    assert_eq!(config.map.path, "xiss-map.csv");
    assert_eq!(config.map.lock, "xiss-map.lock.csv");
    assert!(config.map.exclude.class.is_empty());
    assert!(config.map.exclude.var.is_empty());
    assert!(config.map.exclude.keyframes.is_empty());
    let map = ConfigMap::default();
    assert_eq!(map.path, "xiss-map.csv");
    let exclude = ConfigMapExclude::default();
    assert!(exclude.class.is_empty());
    assert_eq!(default_output_path(), "build/css/");
    assert_eq!(default_include_path(), "css/");
    assert_eq!(default_config_map_path(), "xiss-map.csv");
    assert_eq!(default_config_map_lock_path(), "xiss-map.lock.csv");
}

#[test]
fn module_extension() {
    assert!(has_module_extension(Some("xiss")));
    assert!(!has_module_extension(Some("css")));
    assert!(!has_module_extension(Some("XISS")));
    assert!(!has_module_extension(None));
}

#[test]
fn module_id_is_cut_at_the_first_dot() {
    assert_eq!(path_to_module_id("foo.xiss"), "foo");
    assert_eq!(path_to_module_id("dir/foo.xiss"), "dir/foo");
    assert_eq!(path_to_module_id("dir/foo.d.ts"), "dir/foo");
    assert_eq!(path_to_module_id("foo"), "foo");
    assert_eq!(path_to_module_id(".hidden"), "");
    assert_eq!(path_to_module_id(""), "");
}

#[test]
fn latest_of_three_times() {
    assert_eq!(max_modified_time_3(Some(1), Some(2), Some(3)), Some(3));
    assert_eq!(max_modified_time_3(Some(3), Some(2), Some(1)), Some(3));
    assert_eq!(max_modified_time_3(Some(1), Some(3), Some(2)), Some(3));
    assert_eq!(max_modified_time_3(None, Some(3), Some(2)), None);
    assert_eq!(max_modified_time_3(Some(1), None, Some(2)), None);
    assert_eq!(max_modified_time_3(Some(1), Some(3), None), None);
}

#[test]
fn recompile_when_the_module_is_newer() {
    assert!(!should_compile(Some(5), Some(1), Some(9), Some(3)));
    assert!(!should_compile(Some(9), Some(1), Some(9), Some(3)));
    assert!(should_compile(Some(10), Some(1), Some(9), Some(3)));
    assert!(should_compile(Some(5), None, Some(9), Some(3)));
    assert!(should_compile(None, Some(1), Some(9), Some(3)));
}

#[test]
fn update_when_the_content_differs() {
    assert!(should_update(None, "a"));
    assert!(should_update(Some("b"), "a"));
    assert!(!should_update(Some("a"), "a"));
}
