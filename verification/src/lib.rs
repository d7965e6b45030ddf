//! Backend orchestration library for a desktop development tool: providers
//! that translate abstract agent requests into shell command lines, a registry
//! of spawned agent processes, the output-batching policy for their
//! pseudo-terminal streams, and the pure helpers behind the surrounding
//! commands (crash reports, project metadata, watcher filtering).
use vstd::prelude::*;

pub mod agents;
pub mod batch;
pub mod crashlog;
pub mod database;
pub mod encoding;
pub mod fsview;
pub mod gitview;
pub mod llm;
pub mod mcp;
pub mod providers;
pub mod sessions;
pub mod spawn;
pub mod sysproc;
pub mod strutil;

verus! {

/// Greets the given name, or the world when the name is empty.
pub fn greet(name: &str) -> (r: String)
    ensures
        name@.len() == 0 ==> r@ == "Hello, World!"@,
        name@.len() != 0 ==> r@ == "Hello, "@ + name@ + "!"@,
{
    if name.is_empty() {
        String::from_str("Hello, World!")
    } else {
        let mut r = String::from_str("Hello, ");
        r.append(name);
        r.append("!");
        r
    }
}

} // verus!
