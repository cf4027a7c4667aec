//! The text of generated code.

use crate::text::repeated;
use vstd::prelude::*;

pub mod service;

pub use service::generate_service;

verus! {

/// The leading blanks of a line nested `level` deep: four for each level.
pub open spec fn indent_text(level: nat) -> Seq<char> {
    repeated("    "@, level)
}

/// The roles named in the attribute of a service trait.
pub open spec fn role_tag(server: bool, client: bool) -> Seq<char> {
    if server && client {
        "server, client"@
    } else if server {
        "server"@
    } else if client {
        "client"@
    } else {
        ""@
    }
}

/// The two lines that open a service trait: the attribute with the roles, and
/// the trait's head.
pub open spec fn trait_start(indent: nat, rust_type: Seq<char>, server: bool, client: bool) -> Seq<
    char,
> {
    indent_text(indent) + "#[jsonrpsee::proc_macros::rpc("@ + role_tag(server, client) + ")]\n"@
        + indent_text(indent) + "pub trait "@ + rust_type + " {\n"@
}

/// The line that closes a service trait.
pub open spec fn trait_end(indent: nat) -> Seq<char> {
    indent_text(indent) + "}\n"@
}

/// A nesting depth, written as leading blanks.
#[derive(Debug, Clone, Copy)]
pub struct Indent(pub usize);

impl Indent {
    /// Appends the leading blanks of this depth to `f`.
    pub fn fmt(&self, f: &mut String)
        ensures
            final(f)@ == old(f)@ + indent_text(self.0 as nat),
    {
        let ghost start = f@;
        let mut i: usize = 0;
        assert(start + indent_text(0) == start);
        while i < self.0
            invariant
                i <= self.0,
                f@ == start + indent_text(i as nat),
            decreases self.0 - i,
        {
            f.append("    ");
            assert(f@ == start + indent_text((i + 1) as nat)) by {
                assert(indent_text((i + 1) as nat) == indent_text(i as nat) + "    "@);
            }
            i += 1;
        }
    }
}

/// Appends the opening of the trait `rust_type` to `writer`, for the roles asked.
pub fn write_jsonrpsee_start(
    indent: usize,
    rust_type: &str,
    writer: &mut String,
    server: bool,
    client: bool,
)
    ensures
        final(writer)@ == old(writer)@ + trait_start(indent as nat, rust_type@, server, client),
{
    let tag = if server && client {
        "server, client"
    } else if server {
        "server"
    } else if client {
        "client"
    } else {
        ""
    };
    let mut line = String::new();
    Indent(indent).fmt(&mut line);
    line.append("#[jsonrpsee::proc_macros::rpc(");
    line.append(tag);
    line.append(")]\n");
    Indent(indent).fmt(&mut line);
    line.append("pub trait ");
    line.append(rust_type);
    line.append(" {\n");
    assert(line@ == trait_start(indent as nat, rust_type@, server, client));
    writer.append(line.as_str());
}

/// Appends the closing of a trait to `writer`.
pub fn write_jsonrpsee_end(indent: usize, writer: &mut String)
    ensures
        final(writer)@ == old(writer)@ + trait_end(indent as nat),
{
    let mut line = String::new();
    Indent(indent).fmt(&mut line);
    line.append("}\n");
    assert(line@ == trait_end(indent as nat));
    writer.append(line.as_str());
}

} // verus!
