//! Sandbox identifiers.

use crate::paths;
use crate::text;
use vstd::prelude::*;

verus! {

/// The text of a sandbox id: printable ASCII that is a single path component.
pub open spec fn is_sandbox_id(raw: Seq<char>) -> bool {
    &&& raw.len() > 0
    &&& forall|i: int| 0 <= i < raw.len() ==> 0x21 <= (#[trigger] raw[i]) as u32 <= 0x7e && raw[i] != '/'
    &&& raw != "."@
    &&& raw != ".."@
}

/// A name that is no sandbox id.
#[derive(Debug, Clone, Copy, PartialEq, Eq, Structural)]
pub struct InvalidSandboxId;

impl InvalidSandboxId {
    /// The operator-facing description.
    pub fn message(&self) -> (r: String)
        ensures
            r@ == "sandbox id is not a single printable path component"@,
    {
        String::from_str("sandbox id is not a single printable path component")
    }
}

/// A validated sandbox id.
#[derive(Debug, PartialEq, Eq, PartialOrd, Ord, Hash)]
pub struct SandboxId {
    text: String,
}

impl View for SandboxId {
    type V = Seq<char>;

    closed spec fn view(&self) -> Seq<char> {
        self.text@
    }
}

impl Clone for SandboxId {
    fn clone(&self) -> (r: SandboxId)
        ensures
            r@ == self@,
    {
        proof {
            use_type_invariant(self);
        }
        SandboxId { text: self.text.clone() }
    }
}

impl SandboxId {
    /// Every id carries valid text.
    #[verifier::type_invariant]
    pub closed spec fn valid(&self) -> bool {
        is_sandbox_id(self.text@)
    }

    /// Validate a name.
    pub fn parse(raw: &str) -> (r: Result<SandboxId, InvalidSandboxId>)
        ensures
            match r {
                Ok(id) => is_sandbox_id(raw@) && id@ == raw@,
                Err(_) => !is_sandbox_id(raw@),
            },
    {
        let chars = text::chars_of(raw);
        if chars.len() == 0 || text::same_text(raw, ".") || text::same_text(raw, "..") {
            return Err(InvalidSandboxId);
        }
        let mut i: usize = 0;
        while i < chars.len()
            invariant
                i <= chars@.len(),
                chars@ == raw@,
                forall|k: int|
                    0 <= k < i ==> 0x21 <= (#[trigger] raw@[k]) as u32 <= 0x7e && raw@[k] != '/',
            decreases chars@.len() - i,
        {
            let c = chars[i];
            if (c as u32) < 0x21 || c as u32 > 0x7e || c == '/' {
                assert(raw@[i as int] == c);
                return Err(InvalidSandboxId);
            }
            i = i + 1;
        }
        Ok(SandboxId { text: raw.to_owned() })
    }

    /// The id text.
    pub fn as_str(&self) -> (r: &str)
        ensures
            r@ == self@,
            is_sandbox_id(r@),
    {
        proof {
            use_type_invariant(self);
        }
        self.text.as_str()
    }

    /// Whether two ids are the same.
    pub fn same(&self, other: &SandboxId) -> (r: bool)
        ensures
            r == (self@ == other@),
    {
        self.text == other.text
    }
}

/// An id is printable ASCII and names one directory: joined below a root, it is
/// the name of the result, and the root is its parent.
pub proof fn ids_name_one_directory(root: Seq<char>, raw: Seq<char>)
    requires
        is_sandbox_id(raw),
        root.len() > 0,
    ensures
        forall|i: int| 0 <= i < raw.len() ==> '!' <= #[trigger] raw[i] <= '~',
        paths::file_name_of(paths::join_of(root, raw)) == Some(raw),
        paths::parent_of(paths::join_of(root, raw)) == Some(paths::trimmed_of(root)),
{
    if raw.contains('/') {
        let k = choose|k: int| 0 <= k < raw.len() && raw[k] == '/';
        assert(raw[k] != '/');
    }
    assert forall|i: int| 0 <= i < raw.len() implies '!' <= #[trigger] raw[i] <= '~' by {
        lemma_printable(raw[i]);
    }
    paths::joined_paths_come_apart(root, raw);
}

/// Every other printable component is an id.
pub proof fn printable_names_are_ids(raw: Seq<char>)
    requires
        paths::is_component(raw),
        forall|i: int| 0 <= i < raw.len() ==> '!' <= #[trigger] raw[i] <= '~',
    ensures
        is_sandbox_id(raw),
{
    assert forall|i: int| 0 <= i < raw.len() implies 0x21 <= (#[trigger] raw[i]) as u32 <= 0x7e
        && raw[i] != '/' by {
        assert(raw.contains(raw[i]));
        lemma_printable(raw[i]);
    }
}

proof fn lemma_printable(c: char)
    ensures
        0x21 <= c as u32 <= 0x7e <==> '!' <= c <= '~',
{
}

} // verus!
