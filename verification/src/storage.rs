//! Where the controller keeps its files. A path is given as the list of its
//! components, relative to the working directory.

use vstd::prelude::*;

verus! {

/// The texts of the components.
pub open spec fn components(v: Seq<String>) -> Seq<Seq<char>> {
    v.map_values(|s: String| s@)
}

/// The name of the file that holds the resource with the given name.
pub open spec fn toml_file(name: Seq<char>) -> Seq<char> {
    name + ".toml"@
}

/// Resources with different names are kept in different files.
pub proof fn law_distinct_names_distinct_files(a: Seq<char>, b: Seq<char>)
    requires
        a != b,
    ensures
        toml_file(a) != toml_file(b),
{
    let ext = ".toml"@;
    if toml_file(a) == toml_file(b) {
        assert((a + ext).len() == a.len() + ext.len());
        assert((b + ext).len() == b.len() + ext.len());
        assert(a.len() == b.len());
        assert(toml_file(a).take(a.len() as int) =~= a);
        assert(toml_file(b).take(b.len() as int) =~= b);
    }
}

fn path1(a: &str) -> (r: Vec<String>)
    ensures
        components(r@) == seq![a@],
{
    let mut r = Vec::new();
    r.push(a.to_owned());
    proof {
        assert(components(r@) =~= seq![a@]);
    }
    r
}

fn path2(a: &str, b: String) -> (r: Vec<String>)
    ensures
        components(r@) == seq![a@, b@],
{
    let mut r = Vec::new();
    r.push(a.to_owned());
    r.push(b);
    proof {
        assert(components(r@) =~= seq![a@, b@]);
    }
    r
}

fn toml_name(name: &str) -> (r: String)
    ensures
        r@ == toml_file(name@),
{
    let mut r = name.to_owned();
    r.append(".toml");
    r
}

/// The places of the controller's files.
pub struct Storage;

impl Storage {
    /// `logs/latest.log`
    pub fn latest_log_file() -> (r: Vec<String>)
        ensures
            components(r@) == seq!["logs"@, "latest.log"@],
    {
        path2("logs", "latest.log".to_owned())
    }

    /// `nodes`
    pub fn nodes_directory() -> (r: Vec<String>)
        ensures
            components(r@) == seq!["nodes"@],
    {
        path1("nodes")
    }

    /// `nodes/<name>.toml`
    pub fn node_file(name: &str) -> (r: Vec<String>)
        ensures
            components(r@) == seq!["nodes"@, toml_file(name@)],
    {
        path2("nodes", toml_name(name))
    }

    /// `groups`
    pub fn groups_directory() -> (r: Vec<String>)
        ensures
            components(r@) == seq!["groups"@],
    {
        path1("groups")
    }

    /// `groups/<name>.toml`
    pub fn group_file(name: &str) -> (r: Vec<String>)
        ensures
            components(r@) == seq!["groups"@, toml_file(name@)],
    {
        path2("groups", toml_name(name))
    }

    /// `users`
    pub fn users_directory() -> (r: Vec<String>)
        ensures
            components(r@) == seq!["users"@],
    {
        path1("users")
    }

    /// `users/<name>.toml`
    pub fn user_file(name: &str) -> (r: Vec<String>)
        ensures
            components(r@) == seq!["users"@, toml_file(name@)],
    {
        path2("users", toml_name(name))
    }

    /// `configs`
    pub fn configs_directory() -> (r: Vec<String>)
        ensures
            components(r@) == seq!["configs"@],
    {
        path1("configs")
    }

    /// `configs/config.toml`
    pub fn primary_config_file() -> (r: Vec<String>)
        ensures
            components(r@) == seq!["configs"@, "config.toml"@],
    {
        path2("configs", "config.toml".to_owned())
    }

    /// `configs/wasm-plugins.toml`
    pub fn wasm_plugins_config_file() -> (r: Vec<String>)
        ensures
            components(r@) == seq!["configs"@, "wasm-plugins.toml"@],
    {
        path2("configs", "wasm-plugins.toml".to_owned())
    }

    /// `configs/wasm-engine.toml`
    pub fn wasm_engine_config_file() -> (r: Vec<String>)
        ensures
            components(r@) == seq!["configs"@, "wasm-engine.toml"@],
    {
        path2("configs", "wasm-engine.toml".to_owned())
    }

    /// `plugins`
    pub fn plugins_directory() -> (r: Vec<String>)
        ensures
            components(r@) == seq!["plugins"@],
    {
        path1("plugins")
    }

    /// `data/<name>`
    pub fn data_directory_for_plugin(name: &str) -> (r: Vec<String>)
        ensures
            components(r@) == seq!["data"@, name@],
    {
        path2("data", name.to_owned())
    }

    /// `configs/<name>`
    pub fn config_directory_for_plugin(name: &str) -> (r: Vec<String>)
        ensures
            components(r@) == seq!["configs"@, name@],
    {
        path2("configs", name.to_owned())
    }
}

} // verus!
