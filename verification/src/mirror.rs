use vstd::prelude::*;

use crate::fanout::{kept, retain_unmarked};
use crate::parse::{
    lines, lines_of, parse_u32, parse_u32_spec, split_char, split_from, split_on, trim, trim_of, words, words_of,
};
use crate::registry::Registry;
use crate::text::{chars_of, concat_str, decimal, decimal_of, decode_lossy, utf8_lossy};

verus! {

/// A terminal that can be mirrored: a tmux pane or a shell on a pseudo-terminal.
#[derive(Debug)]
pub struct TerminalInfo {
    pub id: String,
    pub pts_path: String,
    pub pid: u32,
    pub command: String,
    pub tmux_session: String,
    pub tmux_pane: String,
    pub is_setup: bool,
}

/// A [`TerminalInfo`] with its strings as character sequences.
pub struct TerminalView {
    pub id: Seq<char>,
    pub pts_path: Seq<char>,
    pub pid: u32,
    pub command: Seq<char>,
    pub tmux_session: Seq<char>,
    pub tmux_pane: Seq<char>,
    pub is_setup: bool,
}

impl View for TerminalInfo {
    type V = TerminalView;

    open spec fn view(&self) -> TerminalView {
        TerminalView {
            id: self.id@,
            pts_path: self.pts_path@,
            pid: self.pid,
            command: self.command@,
            tmux_session: self.tmux_session@,
            tmux_pane: self.tmux_pane@,
            is_setup: self.is_setup,
        }
    }
}

impl Clone for TerminalInfo {
    fn clone(&self) -> (c: Self)
        ensures
            c == *self,
    {
        TerminalInfo {
            id: self.id.clone(),
            pts_path: self.pts_path.clone(),
            pid: self.pid,
            command: self.command.clone(),
            tmux_session: self.tmux_session.clone(),
            tmux_pane: self.tmux_pane.clone(),
            is_setup: self.is_setup,
        }
    }
}

#[verifier::external_type_specification]
#[verifier::external_body]
#[verifier::reject_recursive_types(K)]
#[verifier::reject_recursive_types(V)]
#[verifier::reject_recursive_types(S)]
pub struct ExDashMap<K, V, S>(dashmap::DashMap<K, V, S>);

/// The entries of a terminal table, id to terminal.
pub uninterp spec fn terminal_table(m: dashmap::DashMap<String, TerminalInfo>) -> Map<
    Seq<char>,
    TerminalView,
>;

/// Calls `DashMap::new`: an empty table.
#[verifier::external_body]
fn table_new() -> (m: dashmap::DashMap<String, TerminalInfo>)
    ensures
        terminal_table(m) =~= Map::empty(),
{
    dashmap::DashMap::new()
}

/// Calls `DashMap::insert`: the entry for `k` becomes `v`.
#[verifier::external_body]
fn table_insert(m: &mut dashmap::DashMap<String, TerminalInfo>, k: String, v: TerminalInfo)
    ensures
        terminal_table(*final(m)) == terminal_table(*old(m)).insert(k@, v@),
{
    m.insert(k, v);
}

/// Calls `DashMap::get` and copies the entry out with [`TerminalInfo::clone`].
#[verifier::external_body]
fn table_get(m: &dashmap::DashMap<String, TerminalInfo>, k: &str) -> (r: Option<TerminalInfo>)
    ensures
        r matches Some(v) ==> terminal_table(*m).contains_key(k@) && v@ == terminal_table(*m)[k@],
        r is None ==> !terminal_table(*m).contains_key(k@),
{
    m.get(k).map(|e| e.value().clone())
}

/// Calls `DashMap::clear`: no entries are left.
#[verifier::external_body]
fn table_clear(m: &mut dashmap::DashMap<String, TerminalInfo>)
    ensures
        terminal_table(*final(m)) =~= Map::empty(),
{
    m.clear();
}

/// Calls `DashMap::len`: the number of entries.
#[verifier::external_body]
fn table_len(m: &dashmap::DashMap<String, TerminalInfo>) -> (n: usize)
    ensures
        n == terminal_table(*m).len(),
{
    m.len()
}

/// Walks the table with `DashMap::iter` and copies every entry out as a key and a terminal.
/// The order of the walk is the table's own; every entry comes out exactly once.
#[verifier::external_body]
fn table_entries(m: &dashmap::DashMap<String, TerminalInfo>) -> (es: Vec<(String, TerminalInfo)>)
    ensures
        forall|i: int| 0 <= i < es@.len() ==> terminal_table(*m).contains_key(#[trigger] es@[i].0@)
            && terminal_table(*m)[es@[i].0@] == es@[i].1@,
        forall|i: int, j: int| 0 <= i < j < es@.len() ==> #[trigger] es@[i].0@ != #[trigger] es@[j].0@,
        es@.len() == terminal_table(*m).len(),
        forall|k: Seq<char>| #[trigger] terminal_table(*m).contains_key(k) ==> exists|i: int|
            0 <= i < es@.len() && #[trigger] es@[i].0@ == k,
{
    m.iter().map(|e| (e.key().clone(), e.value().clone())).collect()
}

/// How often a mirror captures its pane, in milliseconds.
pub const MIRROR_POLL_MILLIS: u64 = 200;

/// The id of the `idx`-th discovered terminal.
pub open spec fn mirror_id(idx: nat) -> Seq<char> {
    "mirror-"@ + decimal(idx)
}

/// `"mirror-"` and `idx` in decimal.
pub fn mirror_id_of(idx: usize) -> (s: String)
    ensures
        s@ == mirror_id(idx as nat),
{
    let d = decimal_of(idx as u64);
    concat_str("mirror-", d.as_str())
}

/// The session name of a `tmux list-sessions` line: the text before its first `':'`, trimmed.
pub open spec fn session_name_of(line: Seq<char>) -> Seq<char> {
    trim(split_char(line, ':')[0])
}

proof fn lemma_first_piece(s: Seq<char>, sep: char, pos: int) -> (p: int)
    requires
        0 <= pos <= s.len(),
        forall|j: int| 0 <= j < pos ==> s[j] != sep,
    ensures
        pos <= p <= s.len(),
        p == s.len() || s[p] == sep,
        forall|j: int| 0 <= j < p ==> s[j] != sep,
        split_from(s, sep, 0, pos)[0] == s.subrange(0, p),
    decreases s.len() - pos,
{
    if pos >= s.len() {
        pos
    } else if s[pos] == sep {
        pos
    } else {
        let p = lemma_first_piece(s, sep, pos + 1);
        assert(split_from(s, sep, 0, pos) == split_from(s, sep, 0, pos + 1));
        p
    }
}

/// The session name of a line is its first field: the text before the first `':'` (the whole
/// line when there is none), trimmed, whatever follows that `':'`.
pub proof fn law_session_name_is_first_field(line: Seq<char>)
    ensures
        exists|p: int|
            0 <= p <= line.len() && (p == line.len() || line[p] == ':') && (forall|j: int| 0 <= j < p ==> line[j] != ':')
                && session_name_of(line) == trim(#[trigger] line.subrange(0, p)),
{
    let p = lemma_first_piece(line, ':', 0);
    assert(split_char(line, ':') == split_from(line, ':', 0, 0));
    assert(session_name_of(line) == trim(line.subrange(0, p)));
}

/// What running `tmux list-sessions` gave.
pub enum SessionListing {
    /// tmux could not be run.
    Unavailable,
    /// tmux ran and reported failure.
    Failed,
    /// tmux ran and listed the sessions on its standard output.
    Listed(Vec<u8>),
}

/// The session names of a listing, or why there are none.
pub fn session_names(listing: &SessionListing) -> (r: Result<Vec<String>, String>)
    ensures
        listing is Unavailable ==> (r matches Err(m) && m@ == "tmux not available"@),
        listing is Failed ==> (r matches Err(m) && m@ == "no tmux sessions"@),
        listing matches SessionListing::Listed(out) ==> (r matches Ok(names) && names.deep_view()
            == lines(utf8_lossy(out@)).map_values(|l: Seq<char>| session_name_of(l))),
{
    match listing {
        SessionListing::Unavailable => Err(String::from_str("tmux not available")),
        SessionListing::Failed => Err(String::from_str("no tmux sessions")),
        SessionListing::Listed(out) => {
            let text = decode_lossy(out.as_slice());
            let ls = lines_of(&chars_of(text.as_str()));
            let ghost l = lines(text@);
            let mut names: Vec<String> = Vec::new();
            let n = ls.len();
            for i in 0..n
                invariant
                    n == ls@.len(),
                    ls.deep_view() == l,
                    names.deep_view() =~= l.take(i as int).map_values(|x: Seq<char>| session_name_of(x)),
            {
                let line = &ls[i];
                proof {
                    assert(ls.deep_view()[i as int] == line@);
                }
                let pieces = split_on(&chars_of(line.as_str()), ':');
                proof {
                    crate::parse::lemma_split_nonempty(line@, ':', 0, 0);
                    assert(pieces.deep_view()[0] == pieces@[0]@);
                }
                let name = trim_of(&chars_of(pieces[0].as_str()));
                let ghost before = names.deep_view();
                names.push(name);
                proof {
                    assert(names.deep_view() =~= before.push(name@));
                    assert(l.take(i + 1).map_values(|x: Seq<char>| session_name_of(x)) =~= l.take(
                        i as int,
                    ).map_values(|x: Seq<char>| session_name_of(x)).push(session_name_of(l[i as int])));
                }
            }
            proof {
                assert(l.take(n as int) =~= l);
            }
            Ok(names)
        },
    }
}

/// One pane of a session as `tmux list-panes -F "#{pane_id} #{pane_pid} #{pane_tty}"` lists it.
pub struct PaneRecord {
    pub pane_id: String,
    pub pid: u32,
    pub pts_path: String,
}

/// The pane of a listing line with at least three words: its id, its process id (0 when the
/// second word is no number) and its terminal.
pub open spec fn pane_record_of(line: Seq<char>) -> Option<(Seq<char>, u32, Seq<char>)> {
    let w = words(line);
    if w.len() >= 3 {
        Some(
            (
                w[0],
                match parse_u32_spec(w[1]) {
                    Some(p) => p,
                    None => 0,
                },
                w[2],
            ),
        )
    } else {
        None
    }
}

/// The panes of a listing, in order; lines with fewer than three words are skipped.
pub open spec fn pane_records_spec(out: Seq<char>) -> Seq<(Seq<char>, u32, Seq<char>)> {
    lines(out).filter_map(|l: Seq<char>| pane_record_of(l))
}

/// A pane record as id, process id and terminal.
pub open spec fn record_view(r: PaneRecord) -> (Seq<char>, u32, Seq<char>) {
    (r.pane_id@, r.pid, r.pts_path@)
}

/// The panes listed on `out`.
pub fn pane_records(out: &str) -> (rs: Vec<PaneRecord>)
    ensures
        rs@.map_values(|r: PaneRecord| record_view(r)) == pane_records_spec(out@),
{
    let ls = lines_of(&chars_of(out));
    let ghost l = lines(out@);
    let mut rs: Vec<PaneRecord> = Vec::new();
    let n = ls.len();
    for i in 0..n
        invariant
            n == ls@.len(),
            ls.deep_view() == l,
            rs@.map_values(|r: PaneRecord| record_view(r)) =~= l.take(i as int).filter_map(
                |x: Seq<char>| pane_record_of(x),
            ),
    {
        let line = &ls[i];
        proof {
            assert(ls.deep_view()[i as int] == line@);
            assert(l.take(i + 1).drop_last() =~= l.take(i as int));
            assert(l.take(i + 1).last() == line@);
        }
        let w = words_of(&chars_of(line.as_str()));
        if w.len() >= 3 {
            let ghost before = rs@.map_values(|r: PaneRecord| record_view(r));
            let pid = match parse_u32(&chars_of(w[1].as_str())) {
                Some(p) => p,
                None => 0,
            };
            let rec = PaneRecord { pane_id: w[0].clone(), pid, pts_path: w[2].clone() };
            proof {
                let wv = w.deep_view();
                assert(wv[0] == w@[0]@ && wv[1] == w@[1]@ && wv[2] == w@[2]@);
            }
            rs.push(rec);
            proof {
                assert(rs@.map_values(|r: PaneRecord| record_view(r)) =~= before.push(record_view(rec)));
            }
        }
    }
    proof {
        assert(l.take(n as int) =~= l);
    }
    rs
}

/// The process id of a `ps -eo pid,tty,comm=` line worth a closer look: the line has at least
/// three words, the first is a number, and it is neither `my_pid` nor more than a hundred
/// above it.
pub open spec fn shell_candidate_of(line: Seq<char>, my_pid: u32) -> Option<u32> {
    let w = words(line);
    if w.len() >= 3 {
        match parse_u32_spec(w[0]) {
            Some(pid) => if pid != my_pid && pid <= my_pid + 100 {
                Some(pid)
            } else {
                None
            },
            None => None,
        }
    } else {
        None
    }
}

/// The candidate shell process ids of a `ps` listing, in order.
pub open spec fn shell_candidates_spec(out: Seq<char>, my_pid: u32) -> Seq<u32> {
    lines(out).filter_map(|l: Seq<char>| shell_candidate_of(l, my_pid))
}

/// The process ids on a `ps` listing that may be shells on a pseudo-terminal.
pub fn shell_candidates(out: &[u8], my_pid: u32) -> (pids: Vec<u32>)
    ensures
        pids@ == shell_candidates_spec(utf8_lossy(out@), my_pid),
{
    let text = decode_lossy(out);
    let ls = lines_of(&chars_of(text.as_str()));
    let ghost l = lines(text@);
    let mut pids: Vec<u32> = Vec::new();
    let n = ls.len();
    for i in 0..n
        invariant
            n == ls@.len(),
            ls.deep_view() == l,
            pids@ =~= l.take(i as int).filter_map(|x: Seq<char>| shell_candidate_of(x, my_pid)),
    {
        let line = &ls[i];
        proof {
            assert(ls.deep_view()[i as int] == line@);
            assert(l.take(i + 1).drop_last() =~= l.take(i as int));
            assert(l.take(i + 1).last() == line@);
        }
        let w = words_of(&chars_of(line.as_str()));
        if w.len() >= 3 {
            proof {
                assert(w.deep_view()[0] == w@[0]@);
            }
            match parse_u32(&chars_of(w[0].as_str())) {
                Some(pid) => {
                    if pid != my_pid && pid as u64 <= my_pid as u64 + 100 {
                        pids.push(pid);
                    }
                },
                None => {},
            }
        }
    }
    proof {
        assert(l.take(n as int) =~= l);
    }
    pids
}

/// Whether `path` names a pseudo-terminal device.
pub open spec fn is_pts_path(path: Seq<char>) -> bool {
    path.len() >= 9 && path.subrange(0, 9) == "/dev/pts/"@
}

/// The shell terminal numbered `idx` for process `pid`, from where its standard input points
/// and its command name: none unless the input is a pseudo-terminal.
pub open spec fn shell_terminal_spec(
    idx: nat,
    pid: u32,
    fd0_target: Option<Seq<char>>,
    comm: Option<Seq<char>>,
) -> Option<TerminalView> {
    match fd0_target {
        Some(t) => if is_pts_path(t) {
            Some(
                TerminalView {
                    id: mirror_id(idx),
                    pts_path: t,
                    pid,
                    command: match comm {
                        Some(c) => trim(c),
                        None => "unknown"@,
                    },
                    tmux_session: Seq::empty(),
                    tmux_pane: Seq::empty(),
                    is_setup: false,
                },
            )
        } else {
            None
        },
        None => None,
    }
}

fn starts_with_pts(v: &Vec<char>) -> (b: bool)
    ensures
        b == is_pts_path(v@),
{
    let prefix = chars_of("/dev/pts/");
    proof {
        reveal_strlit("/dev/pts/");
        assert(prefix@.len() == 9);
    }
    if v.len() < 9 {
        return false;
    }
    let mut i: usize = 0;
    while i < 9
        invariant
            i <= 9,
            prefix@ == "/dev/pts/"@,
            prefix@.len() == 9,
            9 <= v@.len(),
            forall|j: int| 0 <= j < i ==> v@[j] == prefix@[j],
        decreases 9 - i,
    {
        if v[i] != prefix[i] {
            proof {
                assert(v@.subrange(0, 9)[i as int] != "/dev/pts/"@[i as int]);
            }
            return false;
        }
        i = i + 1;
    }
    proof {
        assert(v@.subrange(0, 9) =~= "/dev/pts/"@);
    }
    true
}

/// The shell terminal numbered `idx` for process `pid`, given where its standard input points
/// and its command name.
pub fn shell_terminal(idx: usize, pid: u32, fd0_target: Option<String>, comm: Option<String>) -> (r:
    Option<TerminalInfo>)
    ensures
        r matches Some(t) ==> shell_terminal_spec(
            idx as nat,
            pid,
            option_view(fd0_target),
            option_view(comm),
        ) == Some(t@),
        r is None ==> shell_terminal_spec(
            idx as nat,
            pid,
            option_view(fd0_target),
            option_view(comm),
        ) is None,
{
    match fd0_target {
        None => None,
        Some(t) => {
            if !starts_with_pts(&chars_of(t.as_str())) {
                return None;
            }
            let command = match comm {
                Some(c) => trim_of(&chars_of(c.as_str())),
                None => String::from_str("unknown"),
            };
            Some(
                TerminalInfo {
                    id: mirror_id_of(idx),
                    pts_path: t,
                    pid,
                    command,
                    tmux_session: String::new(),
                    tmux_pane: String::new(),
                    is_setup: false,
                },
            )
        },
    }
}

/// What is learned of one shell process: its pid, where its standard input points and its
/// command name, as character sequences.
pub open spec fn probe_view(p: (u32, Option<String>, Option<String>)) -> (u32, Option<Seq<char>>, Option<Seq<char>>) {
    (p.0, option_view(p.1), option_view(p.2))
}

/// The probes of some shell processes as character sequences.
pub open spec fn probe_views(ps: Seq<(u32, Option<String>, Option<String>)>) -> Seq<(u32, Option<Seq<char>>, Option<Seq<char>>)> {
    ps.map_values(|p: (u32, Option<String>, Option<String>)| probe_view(p))
}

/// The shell terminals among the probed processes, in order, numbered from `first_idx` on:
/// each process whose input is a pseudo-terminal gets the next number.
pub open spec fn shell_terminals_spec(
    first_idx: nat,
    probes: Seq<(u32, Option<Seq<char>>, Option<Seq<char>>)>,
) -> Seq<TerminalView>
    decreases probes.len(),
{
    if probes.len() == 0 {
        Seq::empty()
    } else {
        let prev = shell_terminals_spec(first_idx, probes.drop_last());
        let p = probes.last();
        match shell_terminal_spec(first_idx + prev.len(), p.0, p.1, p.2) {
            Some(t) => prev.push(t),
            None => prev,
        }
    }
}

/// The shell terminals among the probed processes (pid, target of standard input, command
/// name), numbered `mirror-<first_idx>`, `mirror-<first_idx + 1>`, ... in order.
pub fn shell_terminals(first_idx: usize, probes: Vec<(u32, Option<String>, Option<String>)>) -> (ts: Vec<
    TerminalInfo,
>)
    requires
        first_idx + probes@.len() <= usize::MAX,
    ensures
        ts@.map_values(|t: TerminalInfo| t@) == shell_terminals_spec(first_idx as nat, probe_views(probes@)),
{
    let ghost pv = probe_views(probes@);
    let ghost n = probes@.len();
    let mut rest = probes;
    let mut ts: Vec<TerminalInfo> = Vec::new();
    let ghost mut k: int = 0;
    while rest.len() > 0
        invariant
            0 <= k <= n,
            n == pv.len(),
            first_idx + n <= usize::MAX,
            probe_views(rest@) =~= pv.skip(k),
            ts@.map_values(|t: TerminalInfo| t@) == shell_terminals_spec(first_idx as nat, pv.take(k)),
            ts@.len() <= k,
        decreases rest@.len(),
    {
        let ghost before = ts@.map_values(|t: TerminalInfo| t@);
        proof {
            assert(probe_views(rest@).len() == rest@.len());
            assert(pv.skip(k).len() == n - k);
            assert(k < n);
            lemma_shell_terminals_len(first_idx as nat, pv.take(k));
            assert(pv.take(k + 1).drop_last() =~= pv.take(k));
            assert(pv.take(k + 1).last() == pv[k]);
            assert(probe_views(rest@)[0] == pv[k]);
        }
        let ghost rest0 = rest@;
        let (pid, target, comm) = rest.remove(0);
        proof {
            assert(rest@ =~= rest0.subrange(1, rest0.len() as int));
            assert(probe_views(rest@) =~= probe_views(rest0).subrange(1, rest0.len() as int));
        }
        let idx = first_idx + ts.len();
        match shell_terminal(idx, pid, target, comm) {
            Some(t) => {
                ts.push(t);
                proof {
                    assert(ts@.map_values(|t: TerminalInfo| t@) =~= before.push(t@));
                }
            },
            None => {},
        }
        proof {
            k = k + 1;
            assert(probe_views(rest@) =~= pv.skip(k));
        }
    }
    proof {
        assert(pv.take(k) =~= pv);
    }
    ts
}

/// An optional string as an optional character sequence.
pub open spec fn option_view(o: Option<String>) -> Option<Seq<char>> {
    match o {
        Some(s) => Some(s@),
        None => None,
    }
}

/// A session name with the output of its pane listing, as character and byte sequences.
pub open spec fn session_views(sessions: Seq<(String, Option<Vec<u8>>)>) -> Seq<(Seq<char>, Option<Seq<u8>>)> {
    sessions.map_values(
        |e: (String, Option<Vec<u8>>)|
            (
                e.0@,
                match e.1 {
                    Some(b) => Some(b@),
                    None => None,
                },
            ),
    )
}

/// The terminal of the `idx`-th pane found, `r` being that pane of `session`.
pub open spec fn pane_terminal(
    idx: nat,
    session: Seq<char>,
    r: (Seq<char>, u32, Seq<char>),
    mirrored: Set<Seq<char>>,
) -> TerminalView {
    TerminalView {
        id: mirror_id(idx),
        pts_path: r.2,
        pid: r.1,
        command: "bash"@,
        tmux_session: session,
        tmux_pane: r.0,
        is_setup: mirrored.contains(mirror_id(idx)),
    }
}

/// The terminals of the panes of some sessions, each session with the output of its pane
/// listing (none when the listing could not be run), numbered in order from zero.
pub open spec fn tmux_terminals(
    sessions: Seq<(Seq<char>, Option<Seq<u8>>)>,
    mirrored: Set<Seq<char>>,
) -> Seq<TerminalView>
    decreases sessions.len(),
{
    if sessions.len() == 0 {
        Seq::empty()
    } else {
        let prev = tmux_terminals(sessions.drop_last(), mirrored);
        match sessions.last().1 {
            None => prev,
            Some(out) => {
                let recs = pane_records_spec(utf8_lossy(out));
                prev + Seq::new(
                    recs.len(),
                    |j: int| pane_terminal((prev.len() + j) as nat, sessions.last().0, recs[j], mirrored),
                )
            },
        }
    }
}

/// A table holding the terminals of `ts`, later ones in place of earlier ones with the same id.
pub open spec fn table_of(ts: Seq<TerminalView>) -> Map<Seq<char>, TerminalView>
    decreases ts.len(),
{
    if ts.len() == 0 {
        Map::empty()
    } else {
        table_of(ts.drop_last()).insert(ts.last().id, ts.last())
    }
}

/// Whether some terminal of `table` is on the pseudo-terminal `pts`.
pub open spec fn has_pts(table: Map<Seq<char>, TerminalView>, pts: Seq<char>) -> bool {
    exists|k: Seq<char>| table.contains_key(k) && #[trigger] table[k].pts_path == pts
}

/// Shell terminals added to `table` one after the other, each unless a terminal on its
/// pseudo-terminal is already there: the table afterwards and the terminals added.
pub open spec fn add_shells(table: Map<Seq<char>, TerminalView>, shells: Seq<TerminalView>) -> (
    Map<Seq<char>, TerminalView>,
    Seq<TerminalView>,
)
    decreases shells.len(),
{
    if shells.len() == 0 {
        (table, Seq::empty())
    } else {
        let (t, added) = add_shells(table, shells.drop_last());
        let s = shells.last();
        if has_pts(t, s.pts_path) {
            (t, added)
        } else {
            (t.insert(s.id, s), added.push(s))
        }
    }
}

/// A capture goes to the subscribers when it is not empty and differs from the last one.
pub open spec fn capture_is_news(last: Seq<char>, capture: Seq<char>) -> bool {
    capture != last && capture.len() > 0
}

/// The last content after a capture.
pub open spec fn last_after_capture(last: Seq<char>, capture: Seq<char>) -> Seq<char> {
    if capture_is_news(last, capture) {
        capture
    } else {
        last
    }
}

/// A capture is news exactly when it is not empty and differs from the last one: every such
/// capture is sent, and no other.
pub proof fn law_capture_news_exactly_changes(last: Seq<char>, capture: Seq<char>)
    ensures
        capture_is_news(last, capture) <==> (capture.len() > 0 && capture != last),
        capture_is_news(last, capture) ==> last_after_capture(last, capture) == capture,
        !capture_is_news(last, capture) ==> last_after_capture(last, capture) == last,
{
}

/// The same capture taken twice in a row goes to the subscribers at most once, and an empty
/// capture never does.
pub proof fn law_capture_sent_once(last: Seq<char>, capture: Seq<char>)
    ensures
        !capture_is_news(last_after_capture(last, capture), capture),
        capture.len() == 0 ==> !capture_is_news(last, capture),
{
}

/// The `i`-th tmux terminal found is `mirror-i`, so every id is given once.
pub proof fn law_tmux_terminal_ids(sessions: Seq<(Seq<char>, Option<Seq<u8>>)>, mirrored: Set<Seq<char>>)
    ensures
        forall|i: int| 0 <= i < tmux_terminals(sessions, mirrored).len() ==> (#[trigger] tmux_terminals(
            sessions,
            mirrored,
        )[i]).id == mirror_id(i as nat),
        forall|i: int, j: int|
            0 <= i < j < tmux_terminals(sessions, mirrored).len() ==> (#[trigger] tmux_terminals(
                sessions,
                mirrored,
            )[i]).id != (#[trigger] tmux_terminals(sessions, mirrored)[j]).id,
    decreases sessions.len(),
{
    let ts = tmux_terminals(sessions, mirrored);
    if sessions.len() > 0 {
        law_tmux_terminal_ids(sessions.drop_last(), mirrored);
        let prev = tmux_terminals(sessions.drop_last(), mirrored);
        assert forall|i: int| 0 <= i < ts.len() implies (#[trigger] ts[i]).id == mirror_id(i as nat) by {
            if i < prev.len() {
                assert(ts[i] == prev[i]);
            }
        }
    }
    reveal_strlit("mirror-");
    assert forall|i: int, j: int| 0 <= i < j < ts.len() implies (#[trigger] ts[i]).id != (#[trigger] ts[j]).id by {
        crate::parse::law_decimal_injective(i as nat, j as nat);
        assert(ts[i].id == mirror_id(i as nat));
        assert(ts[j].id == mirror_id(j as nat));
        if mirror_id(i as nat) == mirror_id(j as nat) {
            assert(mirror_id(i as nat).subrange(7, mirror_id(i as nat).len() as int) =~= decimal(i as nat));
            assert(mirror_id(j as nat).subrange(7, mirror_id(j as nat).len() as int) =~= decimal(j as nat));
        }
    }
}

/// Two terminal numbers give the same id only when they are equal.
pub proof fn lemma_mirror_id_injective(a: nat, b: nat)
    ensures
        mirror_id(a) == mirror_id(b) ==> a == b,
{
    reveal_strlit("mirror-");
    crate::parse::law_decimal_injective(a, b);
    if mirror_id(a) == mirror_id(b) {
        assert(mirror_id(a).subrange(7, mirror_id(a).len() as int) =~= decimal(a));
        assert(mirror_id(b).subrange(7, mirror_id(b).len() as int) =~= decimal(b));
    }
}

proof fn lemma_shell_terminals_len(first_idx: nat, probes: Seq<(u32, Option<Seq<char>>, Option<Seq<char>>)>)
    ensures
        shell_terminals_spec(first_idx, probes).len() <= probes.len(),
    decreases probes.len(),
{
    if probes.len() > 0 {
        lemma_shell_terminals_len(first_idx, probes.drop_last());
    }
}

/// The shell terminals found are numbered on from `first_idx` in the order found, so none of
/// them shares an id with another or with one numbered below `first_idx`.
pub proof fn law_shell_terminal_ids(first_idx: nat, probes: Seq<(u32, Option<Seq<char>>, Option<Seq<char>>)>)
    ensures
        shell_terminals_spec(first_idx, probes).len() <= probes.len(),
        forall|i: int| 0 <= i < shell_terminals_spec(first_idx, probes).len() ==> (#[trigger] shell_terminals_spec(
            first_idx,
            probes,
        )[i]).id == mirror_id((first_idx + i) as nat),
    decreases probes.len(),
{
    lemma_shell_terminals_len(first_idx, probes);
    if probes.len() > 0 {
        law_shell_terminal_ids(first_idx, probes.drop_last());
        let prev = shell_terminals_spec(first_idx, probes.drop_last());
        let ts = shell_terminals_spec(first_idx, probes);
        assert forall|i: int| 0 <= i < ts.len() implies (#[trigger] ts[i]).id == mirror_id((first_idx + i) as nat) by {
            if i < prev.len() {
                assert(ts[i] == prev[i]);
            }
        }
    }
}

/// The keys of `table_of(ts)` are the ids of `ts`, and each is filed under its last terminal.
pub proof fn lemma_table_of_keys(ts: Seq<TerminalView>)
    ensures
        table_of(ts).dom().finite(),
        forall|k: Seq<char>| #[trigger] table_of(ts).contains_key(k) <==> exists|i: int| 0 <= i < ts.len() && ts[i].id == k,
    decreases ts.len(),
{
    if ts.len() > 0 {
        lemma_table_of_keys(ts.drop_last());
        let prev = ts.drop_last();
        assert forall|k: Seq<char>| #[trigger] table_of(ts).contains_key(k) implies exists|i: int| 0 <= i < ts.len() && ts[i].id == k by {
            if k == ts.last().id {
                assert(ts[ts.len() - 1].id == k);
            } else {
                let i = choose|i: int| 0 <= i < prev.len() && prev[i].id == k;
                assert(ts[i] == prev[i]);
            }
        }
        assert forall|k: Seq<char>| (exists|i: int| 0 <= i < ts.len() && ts[i].id == k) implies #[trigger] table_of(ts).contains_key(k) by {
            let i = choose|i: int| 0 <= i < ts.len() && ts[i].id == k;
            if i < prev.len() {
                assert(prev[i] == ts[i]);
            }
        }
    } else {
        assert(table_of(ts).dom() =~= Set::empty());
    }
}

/// Terminals with pairwise different ids make a table with as many entries.
pub proof fn lemma_table_of_len(ts: Seq<TerminalView>)
    requires
        forall|i: int, j: int| 0 <= i < j < ts.len() ==> (#[trigger] ts[i]).id != (#[trigger] ts[j]).id,
    ensures
        table_of(ts).len() == ts.len(),
    decreases ts.len(),
{
    if ts.len() > 0 {
        let prev = ts.drop_last();
        assert forall|i: int, j: int| 0 <= i < j < prev.len() implies (#[trigger] prev[i]).id != (#[trigger] prev[j]).id by {
            assert(prev[i] == ts[i] && prev[j] == ts[j]);
        }
        lemma_table_of_len(prev);
        lemma_table_of_keys(prev);
        if table_of(prev).contains_key(ts.last().id) {
            let i = choose|i: int| 0 <= i < prev.len() && prev[i].id == ts.last().id;
            assert(ts[i] == prev[i]);
            assert(ts[i].id != ts[ts.len() - 1].id);
        }
    } else {
        assert(table_of(ts).dom() =~= Set::empty());
    }
}

/// The table after adding shells to the table of `base` is the table of `base` followed by the
/// shells added.
pub proof fn lemma_add_shells_table(base: Seq<TerminalView>, shells: Seq<TerminalView>)
    ensures
        add_shells(table_of(base), shells).0 == table_of(base + add_shells(table_of(base), shells).1),
    decreases shells.len(),
{
    if shells.len() == 0 {
        assert(base + Seq::<TerminalView>::empty() =~= base);
    } else {
        lemma_add_shells_table(base, shells.drop_last());
        let (t, a) = add_shells(table_of(base), shells.drop_last());
        let x = shells.last();
        if !has_pts(t, x.pts_path) {
            let all = base + a.push(x);
            assert(all.drop_last() =~= base + a);
            assert(all.last() == x);
        }
    }
}

/// The shells added are some of those offered, each once: when the offered ones have pairwise
/// different ids, so do the ones added.
pub proof fn lemma_add_shells_members(table: Map<Seq<char>, TerminalView>, shells: Seq<TerminalView>)
    ensures
        forall|i: int| 0 <= i < add_shells(table, shells).1.len() ==> shells.contains(
            #[trigger] add_shells(table, shells).1[i],
        ),
        (forall|i: int, j: int| 0 <= i < j < shells.len() ==> (#[trigger] shells[i]).id != (#[trigger] shells[j]).id)
            ==> (forall|i: int, j: int|
            0 <= i < j < add_shells(table, shells).1.len() ==> (#[trigger] add_shells(table, shells).1[i]).id
                != (#[trigger] add_shells(table, shells).1[j]).id),
    decreases shells.len(),
{
    if shells.len() > 0 {
        let prev = shells.drop_last();
        lemma_add_shells_members(table, prev);
        let a = add_shells(table, prev).1;
        let added = add_shells(table, shells).1;
        assert forall|i: int| 0 <= i < added.len() implies shells.contains(#[trigger] added[i]) by {
            if i < a.len() {
                assert(added[i] == a[i]);
                let j = choose|j: int| 0 <= j < prev.len() && prev[j] == a[i];
                assert(shells[j] == prev[j]);
            } else {
                assert(added[i] == shells[shells.len() - 1]);
            }
        }
        if forall|i: int, j: int| 0 <= i < j < shells.len() ==> (#[trigger] shells[i]).id != (#[trigger] shells[j]).id {
            assert forall|i: int, j: int| 0 <= i < j < prev.len() implies (#[trigger] prev[i]).id != (#[trigger] prev[j]).id by {
                assert(prev[i] == shells[i] && prev[j] == shells[j]);
            }
            assert forall|i: int, j: int| 0 <= i < j < added.len() implies (#[trigger] added[i]).id != (#[trigger] added[j]).id by {
                if j < a.len() {
                    assert(added[i] == a[i] && added[j] == a[j]);
                } else {
                    assert(added[i] == a[i]);
                    let q = choose|q: int| 0 <= q < prev.len() && prev[q] == a[i];
                    assert(shells[q] == prev[q]);
                    assert(added[j] == shells[shells.len() - 1]);
                }
            }
        }
    }
}

/// Discovery gives every terminal its own id: the tmux panes are numbered from zero, the shells
/// found outside tmux on from the number of panes, and the table afterwards holds exactly the
/// terminals returned.
pub proof fn law_discovered_ids_distinct(
    sessions: Seq<(Seq<char>, Option<Seq<u8>>)>,
    mirrored: Set<Seq<char>>,
    probes: Seq<(u32, Option<Seq<char>>, Option<Seq<char>>)>,
)
    ensures
        ({
            let tmux = tmux_terminals(sessions, mirrored);
            let added = add_shells(table_of(tmux), shell_terminals_spec(tmux.len(), probes));
            let all = tmux + added.1;
            &&& forall|i: int, j: int| 0 <= i < j < all.len() ==> (#[trigger] all[i]).id != (#[trigger] all[j]).id
            &&& added.0 == table_of(all)
        }),
{
    let tmux = tmux_terminals(sessions, mirrored);
    let shells = shell_terminals_spec(tmux.len(), probes);
    let added = add_shells(table_of(tmux), shells);
    let all = tmux + added.1;
    law_tmux_terminal_ids(sessions, mirrored);
    law_shell_terminal_ids(tmux.len(), probes);
    assert forall|i: int, j: int| 0 <= i < j < shells.len() implies (#[trigger] shells[i]).id != (#[trigger] shells[j]).id by {
        lemma_mirror_id_injective((tmux.len() + i) as nat, (tmux.len() + j) as nat);
    }
    lemma_add_shells_members(table_of(tmux), shells);
    lemma_add_shells_table(tmux, shells);
    assert forall|i: int, j: int| 0 <= i < j < all.len() implies (#[trigger] all[i]).id != (#[trigger] all[j]).id by {
        if j < tmux.len() {
            assert(all[i] == tmux[i] && all[j] == tmux[j]);
        } else if i >= tmux.len() {
            assert(all[i] == added.1[i - tmux.len()] && all[j] == added.1[j - tmux.len()]);
        } else {
            assert(all[i] == tmux[i]);
            assert(all[j] == added.1[j - tmux.len()]);
            assert(shells.contains(added.1[j - tmux.len()]));
            let q = choose|q: int| 0 <= q < shells.len() && shells[q] == added.1[j - tmux.len()];
            lemma_mirror_id_injective(i as nat, (tmux.len() + q) as nat);
        }
    }
}

/// Where a mirror reads a terminal's output from.
pub enum MirrorSource {
    /// A tmux pane, captured with `tmux capture-pane`.
    Tmux { session: String, pane: String },
    /// A bare pseudo-terminal, which cannot be read.
    Pts { path: String },
}

/// Where input for a terminal goes.
pub enum InputRoute {
    /// `tmux send-keys` to a pane.
    Tmux { pane: String },
    /// A write to a pseudo-terminal device.
    Pts { path: String },
}

/// The answer for an unknown terminal id.
pub open spec fn not_found_message(id: Seq<char>) -> Seq<char> {
    "Terminal "@ + id + " not found"@
}

/// The answer for a terminal without a running mirror.
pub open spec fn mirror_missing_message(id: Seq<char>) -> Seq<char> {
    "Mirror for "@ + id + " not started"@
}

fn not_found(id: &str) -> (m: String)
    ensures
        m@ == not_found_message(id@),
{
    let a = concat_str("Terminal ", id);
    concat_str(a.as_str(), " not found")
}

/// The terminals found and the mirrors running. `M` is what keeps a mirror going.
pub struct TerminalMirror<M> {
    terminals: dashmap::DashMap<String, TerminalInfo>,
    mirrors: Registry<M>,
}

/// The last content seen of a mirrored terminal and the subscribers to send changes to.
pub struct MirrorState<S> {
    pub subscribers: Vec<S>,
    pub last_content: String,
}

impl<M> TerminalMirror<M> {
    /// The terminals, by id.
    pub closed spec fn terminals(&self) -> Map<Seq<char>, TerminalView> {
        terminal_table(self.terminals)
    }

    /// The ids with a running mirror.
    pub closed spec fn mirrored(&self) -> Set<Seq<char>> {
        self.mirrors.contents().dom()
    }

    /// The running mirrors, by id.
    pub closed spec fn mirrors(&self) -> Map<Seq<char>, M> {
        self.mirrors.contents()
    }

    /// Every terminal is filed under its own id.
    pub closed spec fn wf(&self) -> bool {
        &&& self.mirrors.wf()
        &&& forall|k: Seq<char>| #[trigger] self.terminals().contains_key(k) ==> self.terminals()[k].id == k
    }

    /// No terminals, no mirrors.
    pub fn new() -> (m: Self)
        ensures
            m.wf(),
            m.terminals() =~= Map::empty(),
            m.mirrored() =~= Set::empty(),
    {
        TerminalMirror { terminals: table_new(), mirrors: Registry::new() }
    }

    /// Forgets the terminals found earlier, as a new discovery does first.
    pub fn begin_discovery(&mut self)
        requires
            old(self).wf(),
        ensures
            final(self).wf(),
            final(self).terminals() =~= Map::empty(),
            final(self).mirrors() == old(self).mirrors(),
    {
        table_clear(&mut self.terminals);
    }

    /// Records the tmux panes of `sessions` (each session with the output of its pane listing,
    /// none when the listing could not be run) as terminals `mirror-0`, `mirror-1`, ... and
    /// returns them in that order.
    pub fn record_tmux_terminals(&mut self, sessions: &Vec<(String, Option<Vec<u8>>)>) -> (found: Vec<
        TerminalInfo,
    >)
        requires
            old(self).wf(),
        ensures
            final(self).wf(),
            found@.map_values(|t: TerminalInfo| t@) == tmux_terminals(
                session_views(sessions@),
                old(self).mirrored(),
            ),
            final(self).terminals() == old(self).terminals().union_prefer_right(
                table_of(found@.map_values(|t: TerminalInfo| t@)),
            ),
            final(self).mirrors() == old(self).mirrors(),
    {
        let mut found: Vec<TerminalInfo> = Vec::new();
        let n = sessions.len();
        let ghost sv = session_views(sessions@);
        let ghost mirrored = self.mirrored();
        for i in 0..n
            invariant
                n == sessions@.len(),
                sv == session_views(sessions@),
                mirrored == self.mirrored(),
                self.wf(),
                self.mirrors() == old(self).mirrors(),
                found@.map_values(|t: TerminalInfo| t@) =~= tmux_terminals(sv.take(i as int), mirrored),
                old(self).wf(),
                self.terminals() == old(self).terminals().union_prefer_right(
                    table_of(found@.map_values(|t: TerminalInfo| t@)),
                ),
        {
            proof {
                assert(sv.take(i + 1).drop_last() =~= sv.take(i as int));
                assert(sv.take(i + 1).last() == sv[i as int]);
            }
            let (session, out) = &sessions[i];
            match out {
                None => {},
                Some(bytes) => {
                    let text = decode_lossy(bytes.as_slice());
                    let recs = pane_records(text.as_str());
                    let m = recs.len();
                    let ghost base = found@.map_values(|t: TerminalInfo| t@);
                    let ghost rv = recs@.map_values(|r: PaneRecord| record_view(r));
                    let start = found.len();
                    for j in 0..m
                        invariant
                            m == recs@.len(),
                            rv == recs@.map_values(|r: PaneRecord| record_view(r)),
                            start == base.len(),
                            self.wf(),
                            old(self).wf(),
                            self.mirrors() == old(self).mirrors(),
                            mirrored == self.mirrored(),
                            found@.map_values(|t: TerminalInfo| t@) =~= base + Seq::new(
                                j as nat,
                                |q: int| pane_terminal((start + q) as nat, session@, rv[q], mirrored),
                            ),
                            self.terminals() == old(self).terminals().union_prefer_right(
                                table_of(found@.map_values(|t: TerminalInfo| t@)),
                            ),
                    {
                        let idx = found.len();
                        let id = mirror_id_of(idx);
                        let r = &recs[j];
                        let is_setup = self.mirrors.contains_key(id.as_str());
                        let info = TerminalInfo {
                            id: id.clone(),
                            pts_path: r.pts_path.clone(),
                            pid: r.pid,
                            command: String::from_str("bash"),
                            tmux_session: session.clone(),
                            tmux_pane: r.pane_id.clone(),
                            is_setup,
                        };
                        let ghost before = found@.map_values(|t: TerminalInfo| t@);
                        table_insert(&mut self.terminals, id, info.clone());
                        found.push(info);
                        proof {
                            assert(rv[j as int] == record_view(recs@[j as int]));
                            assert(info@ == pane_terminal((start + j) as nat, session@, rv[j as int], mirrored));
                            assert(found@.map_values(|t: TerminalInfo| t@) =~= before.push(info@));
                            let fv = found@.map_values(|t: TerminalInfo| t@);
                            assert(fv.drop_last() =~= before);
                            assert(fv.last() == info@);
                            assert(table_of(found@.map_values(|t: TerminalInfo| t@)) == table_of(before).insert(
                                info@.id,
                                info@,
                            ));
                            assert(self.terminals() =~= old(self).terminals().union_prefer_right(
                                table_of(found@.map_values(|t: TerminalInfo| t@)),
                            ));
                            assert forall|k: Seq<char>| #[trigger] self.terminals().contains_key(k) implies self.terminals()[k].id
                                == k by {
                                if k != info@.id {
                                    assert(self.terminals()[k] == old(self).terminals().union_prefer_right(
                                        table_of(before),
                                    )[k]);
                                }
                            }
                        }
                    }
                },
            }
        }
        proof {
            assert(sv.take(n as int) =~= sv);
        }
        found
    }
}

impl<M> TerminalMirror<M> {
    /// The number of terminals.
    pub fn terminal_count(&self) -> (n: usize)
        ensures
            n == self.terminals().len(),
    {
        table_len(&self.terminals)
    }

    fn pts_taken(&self, pts: &String) -> (b: bool)
        ensures
            b == has_pts(self.terminals(), pts@),
    {
        let es = table_entries(&self.terminals);
        let n = es.len();
        for i in 0..n
            invariant
                n == es@.len(),
                forall|j: int| 0 <= j < es@.len() ==> self.terminals().contains_key(#[trigger] es@[j].0@)
                    && self.terminals()[es@[j].0@] == es@[j].1@,
                forall|j: int| 0 <= j < i ==> es@[j].1@.pts_path != pts@,
        {
            if es[i].1.pts_path == *pts {
                proof {
                    assert(self.terminals().contains_key(es@[i as int].0@));
                    assert(self.terminals()[es@[i as int].0@].pts_path == pts@);
                }
                return true;
            }
        }
        proof {
            assert forall|k: Seq<char>| self.terminals().contains_key(k) implies #[trigger] self.terminals()[k].pts_path
                != pts@ by {
                let j = choose|j: int| 0 <= j < es@.len() && #[trigger] es@[j].0@ == k;
                assert(self.terminals()[es@[j].0@] == es@[j].1@);
            }
        }
        false
    }

    /// Adds the shells found outside tmux, each unless a terminal on its pseudo-terminal is
    /// already known, and returns every terminal found by this discovery: the tmux ones first.
    /// Finding none at all is an error.
    pub fn add_shell_terminals(&mut self, found: Vec<TerminalInfo>, shells: Vec<TerminalInfo>) -> (r:
        Result<Vec<TerminalInfo>, String>)
        requires
            old(self).wf(),
            forall|i: int| 0 <= i < shells@.len() ==> !old(self).terminals().contains_key(#[trigger] shells@[i].id@),
        ensures
            final(self).wf(),
            old(self).terminals() == table_of(found@.map_values(|t: TerminalInfo| t@)) ==> (r matches Ok(ts)
                ==> final(self).terminals() == table_of(ts@.map_values(|t: TerminalInfo| t@))),
            final(self).mirrors() == old(self).mirrors(),
            final(self).terminals() == add_shells(
                old(self).terminals(),
                shells@.map_values(|t: TerminalInfo| t@),
            ).0,
            ({
                let all = found@.map_values(|t: TerminalInfo| t@) + add_shells(
                    old(self).terminals(),
                    shells@.map_values(|t: TerminalInfo| t@),
                ).1;
                if all.len() == 0 {
                    r matches Err(m) && m@ == "No terminal sessions found"@
                } else {
                    r matches Ok(ts) && ts@.map_values(|t: TerminalInfo| t@) == all
                }
            }),
    {
        let mut all = found;
        let ghost base = all@.map_values(|t: TerminalInfo| t@);
        let ghost sv = shells@.map_values(|t: TerminalInfo| t@);
        let n = shells.len();
        for i in 0..n
            invariant
                n == shells@.len(),
                sv == shells@.map_values(|t: TerminalInfo| t@),
                self.wf(),
                self.mirrors() == old(self).mirrors(),
                self.terminals() == add_shells(old(self).terminals(), sv.take(i as int)).0,
                all@.map_values(|t: TerminalInfo| t@) =~= base + add_shells(old(self).terminals(), sv.take(i as int)).1,
        {
            proof {
                assert(sv.take(i + 1).drop_last() =~= sv.take(i as int));
                assert(sv.take(i + 1).last() == shells@[i as int]@);
            }
            let s = &shells[i];
            if !self.pts_taken(&s.pts_path) {
                let ghost before = all@.map_values(|t: TerminalInfo| t@);
                table_insert(&mut self.terminals, s.id.clone(), s.clone());
                all.push(s.clone());
                proof {
                    assert(all@.map_values(|t: TerminalInfo| t@) =~= before.push(s@));
                    assert forall|k: Seq<char>| #[trigger] self.terminals().contains_key(k) implies self.terminals()[k].id
                        == k by {
                        if k != s@.id {
                            assert(self.terminals()[k] == add_shells(old(self).terminals(), sv.take(i as int)).0[k]);
                        }
                    }
                }
            }
        }
        proof {
            assert(sv.take(n as int) =~= sv);
            lemma_add_shells_table(base, sv);
        }
        if all.len() == 0 {
            Err(String::from_str("No terminal sessions found"))
        } else {
            Ok(all)
        }
    }

    /// Discovers the terminals afresh: forgets those found earlier, records the tmux panes of
    /// `sessions` (each session with the output of its pane listing, none when the listing could
    /// not be run) as `mirror-0`, `mirror-1`, ..., then numbers the shells among the probed
    /// processes (pid, target of standard input, command name) on from there and adds each whose
    /// pseudo-terminal is not taken yet. Returns every terminal found, the tmux ones first;
    /// finding none is an error. More terminals than a `usize` can number are refused.
    pub fn discover(
        &mut self,
        sessions: &Vec<(String, Option<Vec<u8>>)>,
        probes: Vec<(u32, Option<String>, Option<String>)>,
    ) -> (r: Result<Vec<TerminalInfo>, String>)
        requires
            old(self).wf(),
        ensures
            final(self).wf(),
            final(self).mirrors() == old(self).mirrors(),
            ({
                let tmux = tmux_terminals(session_views(sessions@), old(self).mirrored());
                let added = add_shells(table_of(tmux), shell_terminals_spec(tmux.len(), probe_views(probes@)));
                let all = tmux + added.1;
                if tmux.len() + probes@.len() > usize::MAX {
                    &&& r matches Err(m) && m@ == "Too many terminals"@
                    &&& final(self).terminals() == table_of(tmux)
                } else {
                    &&& final(self).terminals() == table_of(all)
                    &&& forall|i: int, j: int| 0 <= i < j < all.len() ==> (#[trigger] all[i]).id != (#[trigger] all[j]).id
                    &&& all.len() == 0 ==> (r matches Err(m) && m@ == "No terminal sessions found"@)
                    &&& all.len() > 0 ==> (r matches Ok(ts) && ts@.map_values(|t: TerminalInfo| t@) == all)
                }
            }),
    {
        let ghost mirrored = self.mirrored();
        let ghost tmux = tmux_terminals(session_views(sessions@), mirrored);
        self.begin_discovery();
        let found = self.record_tmux_terminals(sessions);
        proof {
            assert(self.terminals() =~= table_of(tmux));
            law_tmux_terminal_ids(session_views(sessions@), mirrored);
            lemma_table_of_len(tmux);
            lemma_table_of_keys(tmux);
            law_discovered_ids_distinct(session_views(sessions@), mirrored, probe_views(probes@));
        }
        let k = self.terminal_count();
        if k > usize::MAX - probes.len() {
            return Err(String::from_str("Too many terminals"));
        }
        let ghost pv = probe_views(probes@);
        let shells = shell_terminals(k, probes);
        proof {
            law_shell_terminal_ids(k as nat, pv);
            assert forall|i: int| 0 <= i < shells@.len() implies !self.terminals().contains_key(#[trigger] shells@[i].id@) by {
                assert(shells@.map_values(|t: TerminalInfo| t@)[i] == shells@[i]@);
                if self.terminals().contains_key(shells@[i].id@) {
                    let q = choose|q: int| 0 <= q < tmux.len() && tmux[q].id == shells@[i].id@;
                    lemma_mirror_id_injective(q as nat, (k + i) as nat);
                }
            }
        }
        self.add_shell_terminals(found, shells)
    }

    /// Every terminal, each with `is_setup` telling whether a mirror runs for it. The order is
    /// that of the table.
    pub fn get_all_terminals(&self) -> (ts: Vec<TerminalInfo>)
        requires
            self.wf(),
        ensures
            ts@.len() == self.terminals().len(),
            forall|i: int| 0 <= i < ts@.len() ==> self.terminals().contains_key(#[trigger] ts@[i].id@) && ts@[i]@
                == (TerminalView { is_setup: self.mirrored().contains(ts@[i].id@), ..self.terminals()[ts@[i].id@] }),
            forall|i: int, j: int| 0 <= i < j < ts@.len() ==> #[trigger] ts@[i].id@ != #[trigger] ts@[j].id@,
            forall|k: Seq<char>| #[trigger] self.terminals().contains_key(k) ==> exists|i: int|
                0 <= i < ts@.len() && #[trigger] ts@[i].id@ == k,
    {
        let es = table_entries(&self.terminals);
        let mut ts: Vec<TerminalInfo> = Vec::new();
        let n = es.len();
        for i in 0..n
            invariant
                n == es@.len(),
                self.wf(),
                forall|j: int| 0 <= j < es@.len() ==> self.terminals().contains_key(#[trigger] es@[j].0@)
                    && self.terminals()[es@[j].0@] == es@[j].1@,
                ts@.len() == i,
                forall|j: int| 0 <= j < i ==> #[trigger] ts@[j].id@ == es@[j].0@,
                forall|j: int| 0 <= j < i ==> #[trigger] ts@[j]@ == (TerminalView {
                    is_setup: self.mirrored().contains(es@[j].0@),
                    ..es@[j].1@
                }),
        {
            let mut info = es[i].1.clone();
            proof {
                assert(self.terminals().contains_key(es@[i as int].0@));
                assert(self.terminals()[es@[i as int].0@] == es@[i as int].1@);
                assert(info@.id == es@[i as int].0@);
            }
            info.is_setup = self.mirrors.contains_key(info.id.as_str());
            ts.push(info);
        }
        proof {
            assert forall|k: Seq<char>| #[trigger] self.terminals().contains_key(k) implies exists|i: int|
                0 <= i < ts@.len() && #[trigger] ts@[i].id@ == k by {
                let j = choose|j: int| 0 <= j < es@.len() && #[trigger] es@[j].0@ == k;
                assert(ts@[j].id@ == k);
            }
            assert forall|i: int, j: int| 0 <= i < j < ts@.len() implies #[trigger] ts@[i].id@ != #[trigger] ts@[j].id@ by {
                assert(es@[i].0@ != es@[j].0@);
            }
        }
        ts
    }

    /// Adds `info` to the terminals, in place of one with the same id.
    pub fn register_terminal(&mut self, info: TerminalInfo)
        requires
            old(self).wf(),
        ensures
            final(self).wf(),
            final(self).terminals() == old(self).terminals().insert(info@.id, info@),
            final(self).mirrors() == old(self).mirrors(),
    {
        let id = info.id.clone();
        let ghost v = info@;
        table_insert(&mut self.terminals, id, info);
        proof {
            assert forall|k: Seq<char>| #[trigger] self.terminals().contains_key(k) implies self.terminals()[k].id == k by {
                if k != v.id {
                    assert(old(self).terminals().contains_key(k));
                }
            }
        }
    }

    /// Forgets every terminal and every mirror.
    pub fn clear(&mut self)
        requires
            old(self).wf(),
        ensures
            final(self).wf(),
            final(self).terminals() =~= Map::empty(),
            final(self).mirrored() =~= Set::empty(),
    {
        table_clear(&mut self.terminals);
        self.mirrors.clear();
    }

    /// Where the mirror of terminal `id` reads from: its tmux pane when it has a tmux session,
    /// its pseudo-terminal otherwise.
    pub fn mirror_source(&self, id: &str) -> (r: Result<MirrorSource, String>)
        requires
            self.wf(),
        ensures
            !self.terminals().contains_key(id@) ==> (r matches Err(m) && m@ == not_found_message(id@)),
            self.terminals().contains_key(id@) ==> (r matches Ok(src) && (if self.terminals()[id@].tmux_session.len() > 0 {
                src matches MirrorSource::Tmux { session, pane } && session@ == self.terminals()[id@].tmux_session
                    && pane@ == self.terminals()[id@].tmux_pane
            } else {
                src matches MirrorSource::Pts { path } && path@ == self.terminals()[id@].pts_path
            })),
    {
        match table_get(&self.terminals, id) {
            None => Err(not_found(id)),
            Some(t) => {
                if !t.tmux_session.as_str().is_empty() {
                    Ok(MirrorSource::Tmux { session: t.tmux_session, pane: t.tmux_pane })
                } else {
                    Ok(MirrorSource::Pts { path: t.pts_path })
                }
            },
        }
    }

    /// Records the running mirror of terminal `id`.
    pub fn add_mirror(&mut self, id: &str, mirror: M)
        requires
            old(self).wf(),
        ensures
            final(self).wf(),
            final(self).mirrors() == old(self).mirrors().insert(id@, mirror),
            final(self).mirrored() == old(self).mirrored().insert(id@),
            final(self).terminals() == old(self).terminals(),
    {
        self.mirrors.insert(String::from_str(id), mirror);
        assert(self.terminals() == old(self).terminals());
        assert(self.mirrored() =~= old(self).mirrored().insert(id@));
    }

    /// The ids with a running mirror are the keys of the running mirrors.
    pub proof fn lemma_mirrored_is_mirror_keys(&self)
        ensures
            self.mirrored() == self.mirrors().dom(),
    {
    }

    /// The running mirror of terminal `id`.
    pub fn mirror(&self, id: &str) -> (r: Result<&M, String>)
        requires
            self.wf(),
        ensures
            r matches Ok(m) ==> self.mirrors().contains_key(id@) && *m == self.mirrors()[id@],
            r matches Err(m) ==> !self.mirrors().contains_key(id@) && m@ == mirror_missing_message(id@),
            r is Ok <==> self.mirrors().contains_key(id@),
    {
        match self.mirrors.get(id) {
            Some(m) => Ok(m),
            None => {
                let a = concat_str("Mirror for ", id);
                Err(concat_str(a.as_str(), " not started"))
            },
        }
    }

    /// Where input for terminal `id` goes: `tmux send-keys` to its pane when it has a tmux
    /// session, its pseudo-terminal otherwise.
    pub fn input_route(&self, id: &str) -> (r: Result<InputRoute, String>)
        requires
            self.wf(),
        ensures
            !self.terminals().contains_key(id@) ==> (r matches Err(m) && m@ == not_found_message(id@)),
            self.terminals().contains_key(id@) ==> (r matches Ok(route) && (if self.terminals()[id@].tmux_session.len() > 0 {
                route matches InputRoute::Tmux { pane } && pane@ == self.terminals()[id@].tmux_pane
            } else {
                route matches InputRoute::Pts { path } && path@ == self.terminals()[id@].pts_path
            })),
    {
        match table_get(&self.terminals, id) {
            None => Err(not_found(id)),
            Some(t) => {
                if !t.tmux_session.as_str().is_empty() {
                    Ok(InputRoute::Tmux { pane: t.tmux_pane })
                } else {
                    Ok(InputRoute::Pts { path: t.pts_path })
                }
            },
        }
    }
}

impl<S> MirrorState<S> {
    /// No subscribers, nothing seen yet.
    pub fn new() -> (m: Self)
        ensures
            m.subscribers@.len() == 0,
            m.last_content@.len() == 0,
    {
        MirrorState { subscribers: Vec::new(), last_content: String::new() }
    }

    /// Takes in a fresh capture. A capture that differs from the last one and is not empty
    /// becomes the last one and has to go to the subscribers; the answer says whether it does.
    pub fn take_update(&mut self, content: String) -> (changed: bool)
        ensures
            changed == capture_is_news(old(self).last_content@, content@),
            changed <==> (content@ != old(self).last_content@ && content@.len() > 0),
            final(self).last_content@ == last_after_capture(old(self).last_content@, content@),
            final(self).subscribers == old(self).subscribers,
    {
        let same = content == self.last_content;
        if !same && !content.as_str().is_empty() {
            self.last_content = content;
            true
        } else {
            false
        }
    }

    /// Adds a subscriber. The content seen last, when there is any, is what it receives first.
    pub fn subscribe(&mut self, s: S) -> (first: Option<String>)
        ensures
            final(self).subscribers@ == old(self).subscribers@.push(s),
            final(self).last_content == old(self).last_content,
            old(self).last_content@.len() > 0 ==> (first matches Some(c) && c@ == old(self).last_content@),
            old(self).last_content@.len() == 0 ==> first is None,
    {
        let first = if self.last_content.as_str().is_empty() {
            None
        } else {
            Some(self.last_content.clone())
        };
        self.subscribers.push(s);
        first
    }

    /// Drops the subscribers marked in `failed`, one mark per subscriber (those whose channel
    /// refused the last content).
    pub fn drop_failed(&mut self, failed: &Vec<bool>)
        requires
            failed@.len() == old(self).subscribers@.len(),
        ensures
            final(self).subscribers@ == kept(old(self).subscribers@, failed@),
            final(self).last_content == old(self).last_content,
    {
        retain_unmarked(&mut self.subscribers, failed);
    }
}

} // verus!
