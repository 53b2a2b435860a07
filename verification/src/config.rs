use vstd::prelude::*;
use vstd::string::StringExecFns;

verus! {

/// The patterns of the identifiers that must not be made, by kind.
#[derive(Debug)]
pub struct ConfigMapExclude {
    pub class: Vec<String>,
    pub var: Vec<String>,
    pub keyframes: Vec<String>,
}

impl Default for ConfigMapExclude {
    fn default() -> (r: Self)
        ensures
            r.class@.len() == 0,
            r.var@.len() == 0,
            r.keyframes@.len() == 0,
    {
        Self { class: Vec::new(), var: Vec::new(), keyframes: Vec::new() }
    }
}

/// Where the persistent map lies, and what it must not hold.
#[derive(Debug)]
pub struct ConfigMap {
    pub path: String,
    pub lock: String,
    pub exclude: ConfigMapExclude,
}

impl Default for ConfigMap {
    fn default() -> (r: Self)
        ensures
            r.path@ == "xiss-map.csv"@,
            r.lock@ == "xiss-map.lock.csv"@,
            r.exclude.class@.len() == 0,
            r.exclude.var@.len() == 0,
            r.exclude.keyframes@.len() == 0,
    {
        Self {
            path: default_config_map_path(),
            lock: default_config_map_lock_path(),
            exclude: ConfigMapExclude::default(),
        }
    }
}

/// What a build reads, and where it writes.
#[derive(Debug)]
pub struct Config {
    pub output: String,
    pub include_path: String,
    pub map: ConfigMap,
}

impl Default for Config {
    fn default() -> (r: Self)
        ensures
            r.output@ == "build/css/"@,
            r.include_path@ == "css"@,
            r.map.path@ == "xiss-map.csv"@,
            r.map.lock@ == "xiss-map.lock.csv"@,
            r.map.exclude.class@.len() == 0,
            r.map.exclude.var@.len() == 0,
            r.map.exclude.keyframes@.len() == 0,
    {
        Self {
            output: String::from_str("build/css/"),
            include_path: String::from_str("css"),
            map: ConfigMap::default(),
        }
    }
}

/// The output directory of a configuration that names none.
pub fn default_output_path() -> (p: String)
    ensures
        p@ == "build/css/"@,
{
    String::from_str("build/css/")
}

/// The include directory of a configuration that names none.
pub fn default_include_path() -> (p: String)
    ensures
        p@ == "css/"@,
{
    String::from_str("css/")
}

/// The path of the persistent map of a configuration that names none.
pub fn default_config_map_path() -> (p: String)
    ensures
        p@ == "xiss-map.csv"@,
{
    String::from_str("xiss-map.csv")
}

/// The path of the lock file of a configuration that names none.
pub fn default_config_map_lock_path() -> (p: String)
    ensures
        p@ == "xiss-map.lock.csv"@,
{
    String::from_str("xiss-map.lock.csv")
}

} // verus!
