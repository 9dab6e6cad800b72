use vstd::prelude::*;

use crate::registry::Registry;

verus! {

/// The shell started when none is asked for.
pub open spec fn default_shell() -> Seq<char> {
    "/bin/bash"@
}

/// Rows of a fresh terminal.
pub const INITIAL_ROWS: u16 = 24;

/// Columns of a fresh terminal.
pub const INITIAL_COLS: u16 = 80;

/// The shell to run: the one asked for, `/bin/bash` otherwise.
pub fn shell_command<'a>(shell: Option<&'a str>) -> (cmd: &'a str)
    ensures
        shell matches Some(s) ==> cmd@ == s@,
        shell is None ==> cmd@ == default_shell(),
{
    match shell {
        Some(s) => s,
        None => "/bin/bash",
    }
}

/// A lowercase hexadecimal digit.
pub open spec fn is_lower_hex_digit(c: char) -> bool {
    ('0' <= c <= '9') || ('a' <= c <= 'f')
}

/// Whether `s` is the text of a random (version 4, RFC 4122 variant) UUID in hyphenated
/// lowercase form: groups of 8, 4, 4, 4 and 12 hexadecimal digits joined by hyphens, the
/// version digit `4`, and the variant digit one of `8`, `9`, `a`, `b`.
pub open spec fn is_uuid_v4_text(s: Seq<char>) -> bool {
    &&& s.len() == 36
    &&& forall|i: int| 0 <= i < 36 ==> (if i == 8 || i == 13 || i == 18 || i == 23 {
        #[trigger] s[i] == '-'
    } else {
        is_lower_hex_digit(s[i])
    })
    &&& s[14] == '4'
    &&& (s[19] == '8' || s[19] == '9' || s[19] == 'a' || s[19] == 'b')
}

/// Calls `uuid::Uuid::new_v4` and renders the identifier with its `Display` implementation.
/// The identifier is random; what holds of every outcome, as the crate's source shows
/// (`new_v4` masks in the version and variant bits, `Display` writes the lowercase hyphenated
/// form), is its shape.
#[verifier::external_body]
fn fresh_terminal_id() -> (id: String)
    ensures
        is_uuid_v4_text(id@),
{
    uuid::Uuid::new_v4().to_string()
}

/// The terminals spawned on pseudo-terminals, by id. `T` is a running terminal session.
pub struct PtyManager<T> {
    terminals: Registry<T>,
}

impl<T> PtyManager<T> {
    /// The running terminals, by id.
    pub closed spec fn sessions(&self) -> Map<Seq<char>, T> {
        self.terminals.contents()
    }

    /// The table is well formed.
    pub closed spec fn wf(&self) -> bool {
        self.terminals.wf()
    }

    /// No terminals.
    pub fn new() -> (m: Self)
        ensures
            m.wf(),
            m.sessions() =~= Map::empty(),
    {
        PtyManager { terminals: Registry::new() }
    }

    /// Files a freshly spawned terminal under a new random version 4 UUID and returns the id.
    pub fn register_terminal(&mut self, session: T) -> (id: String)
        requires
            old(self).wf(),
        ensures
            final(self).wf(),
            is_uuid_v4_text(id@),
            final(self).sessions() == old(self).sessions().insert(id@, session),
    {
        let id = fresh_terminal_id();
        self.terminals.insert(id.clone(), session);
        id
    }

    /// The terminal filed under `id`.
    pub fn get_terminal(&self, id: &str) -> (t: Option<&T>)
        requires
            self.wf(),
        ensures
            t matches Some(s) ==> self.sessions().contains_key(id@) && *s == self.sessions()[id@],
            t is None ==> !self.sessions().contains_key(id@),
    {
        self.terminals.get(id)
    }

    /// Takes the terminal filed under `id` out of the table; the caller hangs it up.
    pub fn remove_terminal(&mut self, id: &str) -> (t: Option<T>)
        requires
            old(self).wf(),
        ensures
            final(self).wf(),
            final(self).sessions() == old(self).sessions().remove(id@),
            t matches Some(s) ==> old(self).sessions().contains_key(id@) && s == old(self).sessions()[id@],
            t is None ==> !old(self).sessions().contains_key(id@),
    {
        self.terminals.remove(id)
    }

    /// The terminal a resize of `id` applies to, or the error for an unknown id.
    pub fn resize_target(&self, id: &str) -> (t: Result<&T, String>)
        requires
            self.wf(),
        ensures
            t matches Ok(s) ==> self.sessions().contains_key(id@) && *s == self.sessions()[id@],
            t matches Err(m) ==> !self.sessions().contains_key(id@) && m@ == "Terminal not found"@,
    {
        match self.terminals.get(id) {
            Some(s) => Ok(s),
            None => Err(String::from_str("Terminal not found")),
        }
    }

    /// The ids of all terminals, each once.
    pub fn list_terminals(&self) -> (ids: Vec<String>)
        requires
            self.wf(),
        ensures
            ids.deep_view().no_duplicates(),
            forall|k: Seq<char>| #[trigger] self.sessions().contains_key(k) <==> ids.deep_view().contains(k),
    {
        self.terminals.keys()
    }
}

} // verus!
