use vstd::prelude::*;

use crate::fanout::{kept, retain_unmarked};
use crate::parse::{lines, lines_of, splitn_char, splitn_on};
use crate::registry::Registry;
use crate::text::{chars_of, concat_str, decode_lossy, replace_char, replace_char_of, utf8_lossy};

verus! {

/// One pane as `tmux list-panes -a` describes it.
#[derive(Clone, Debug)]
pub struct TmuxPane {
    pub pane_id: String,
    pub session_name: String,
    pub window_index: String,
    pub pane_index: String,
    pub pane_title: String,
    pub pane_current_command: String,
}

/// The six fields of a pane, in the order of the listing format.
pub open spec fn pane_fields(p: TmuxPane) -> Seq<Seq<char>> {
    seq![
        p.pane_id@,
        p.session_name@,
        p.window_index@,
        p.pane_index@,
        p.pane_title@,
        p.pane_current_command@,
    ]
}

/// The fields of a pane come in the listing's order: id, session, window index, pane index,
/// title, command.
pub proof fn law_pane_fields_in_listing_order(p: TmuxPane)
    ensures
        pane_fields(p).len() == 6,
        pane_fields(p)[0] == p.pane_id@,
        pane_fields(p)[1] == p.session_name@,
        pane_fields(p)[2] == p.window_index@,
        pane_fields(p)[3] == p.pane_index@,
        pane_fields(p)[4] == p.pane_title@,
        pane_fields(p)[5] == p.pane_current_command@,
{
}

/// The fields of one listing line: the line split at its first five `'|'`, when it has them.
pub open spec fn pane_line_fields(line: Seq<char>) -> Option<Seq<Seq<char>>> {
    let parts = splitn_char(line, 6, '|');
    if parts.len() >= 6 {
        Some(parts)
    } else {
        None
    }
}

/// The panes that a listing describes: one per line with six fields, other lines skipped.
pub open spec fn pane_listing(out: Seq<char>) -> Seq<Seq<Seq<char>>> {
    lines(out).filter_map(|l: Seq<char>| pane_line_fields(l))
}

/// The panes of a `tmux list-panes -a` listing in the format
/// `id|session|window|pane|title|command`, one per line; lines with fewer fields are skipped.
pub fn parse_pane_listing(out: &str) -> (panes: Vec<TmuxPane>)
    ensures
        panes@.map_values(|p: TmuxPane| pane_fields(p)) == pane_listing(out@),
        panes@.len() == pane_listing(out@).len(),
        forall|i: int| 0 <= i < panes@.len() ==> {
            let f = #[trigger] pane_listing(out@)[i];
            &&& panes@[i].pane_id@ == f[0]
            &&& panes@[i].session_name@ == f[1]
            &&& panes@[i].window_index@ == f[2]
            &&& panes@[i].pane_index@ == f[3]
            &&& panes@[i].pane_title@ == f[4]
            &&& panes@[i].pane_current_command@ == f[5]
        },
{
    let ls = lines_of(&chars_of(out));
    let ghost l = lines(out@);
    let mut panes: Vec<TmuxPane> = Vec::new();
    let n = ls.len();
    for i in 0..n
        invariant
            n == ls@.len(),
            ls.deep_view() == l,
            panes@.map_values(|p: TmuxPane| pane_fields(p)) =~= l.take(i as int).filter_map(
                |x: Seq<char>| pane_line_fields(x),
            ),
    {
        let line = &ls[i];
        proof {
            assert(ls.deep_view()[i as int] == line@);
            assert(l.take(i + 1).drop_last() =~= l.take(i as int));
            assert(l.take(i + 1).last() == line@);
        }
        let parts = splitn_on(&chars_of(line.as_str()), 6, '|');
        if parts.len() >= 6 {
            let ghost before = panes@.map_values(|p: TmuxPane| pane_fields(p));
            let pane = TmuxPane {
                pane_id: parts[0].clone(),
                session_name: parts[1].clone(),
                window_index: parts[2].clone(),
                pane_index: parts[3].clone(),
                pane_title: parts[4].clone(),
                pane_current_command: parts[5].clone(),
            };
            proof {
                lemma_splitn_at_most(line@, 6, '|', 0, 0);
                let pv = parts.deep_view();
                assert(pv[0] == parts@[0]@ && pv[1] == parts@[1]@ && pv[2] == parts@[2]@);
                assert(pv[3] == parts@[3]@ && pv[4] == parts@[4]@ && pv[5] == parts@[5]@);
                assert(pane_fields(pane) =~= pv);
            }
            panes.push(pane);
            proof {
                assert(panes@.map_values(|p: TmuxPane| pane_fields(p)) =~= before.push(pane_fields(pane)));
            }
        }
    }
    proof {
        assert(l.take(n as int) =~= l);
        let fv = panes@.map_values(|p: TmuxPane| pane_fields(p));
        assert(fv.len() == panes@.len());
        assert forall|i: int| 0 <= i < panes@.len() implies {
            let f = #[trigger] pane_listing(out@)[i];
            &&& panes@[i].pane_id@ == f[0]
            &&& panes@[i].session_name@ == f[1]
            &&& panes@[i].window_index@ == f[2]
            &&& panes@[i].pane_index@ == f[3]
            &&& panes@[i].pane_title@ == f[4]
            &&& panes@[i].pane_current_command@ == f[5]
        } by {
            assert(fv[i] == pane_fields(panes@[i]));
            law_pane_fields_in_listing_order(panes@[i]);
        }
    }
    panes
}

proof fn lemma_splitn_at_most(s: Seq<char>, n: int, sep: char, start: int, pos: int)
    requires
        0 <= start <= pos <= s.len(),
        n >= 1,
    ensures
        crate::parse::splitn_from(s, sep, n, start, pos).len() <= n,
    decreases s.len() - pos,
{
    if pos < s.len() && n > 1 {
        if s[pos] == sep {
            lemma_splitn_at_most(s, n - 1, sep, pos + 1, pos + 1);
        } else {
            lemma_splitn_at_most(s, n, sep, start, pos + 1);
        }
    }
}

/// The message for a failed listing: `"tmux error: "` and what tmux wrote to its error stream.
pub open spec fn listing_error(stderr: Seq<u8>) -> Seq<char> {
    "tmux error: "@ + utf8_lossy(stderr)
}

/// The result of `tmux list-panes -a` from its exit status and its output streams, decoded
/// as lossy UTF-8.
pub fn panes_from_output(success: bool, stdout: &[u8], stderr: &[u8]) -> (r: Result<
    Vec<TmuxPane>,
    String,
>)
    ensures
        !success ==> (r matches Err(m) && m@ == listing_error(stderr@)),
        success ==> (r matches Ok(panes) && panes@.map_values(|p: TmuxPane| pane_fields(p))
            == pane_listing(utf8_lossy(stdout@))),
{
    if !success {
        let err = decode_lossy(stderr);
        return Err(concat_str("tmux error: ", err.as_str()));
    }
    let out = decode_lossy(stdout);
    Ok(parse_pane_listing(out.as_str()))
}

/// What a pane capture shows: the captured output decoded as lossy UTF-8.
pub fn capture_text(stdout: &[u8]) -> (text: String)
    ensures
        text@ == utf8_lossy(stdout@),
{
    decode_lossy(stdout)
}

/// How keystrokes are sent to a pane: the arguments of `tmux` and the context of a failure
/// message.
pub struct KeysPlan {
    pub args: Vec<String>,
    pub failure: String,
}

/// Text wrapped in braces names a special key (the braces stripped); other text is typed
/// literally.
pub open spec fn is_special_key(text: Seq<char>) -> bool {
    text.len() > 0 && text[0] == '{' && text.last() == '}'
}

/// The `tmux` arguments that send `text` to `pane_id`.
pub open spec fn send_keys_args(pane_id: Seq<char>, text: Seq<char>) -> Seq<Seq<char>> {
    if is_special_key(text) {
        seq!["send-keys"@, "-t"@, pane_id, text.subrange(1, text.len() - 1)]
    } else {
        seq!["send-keys"@, "-l"@, "-t"@, pane_id, text]
    }
}

/// How `send_keys` sends `text` to `pane_id`: a special key by name, anything else literally.
pub fn send_keys_plan(pane_id: &str, text: &str) -> (plan: KeysPlan)
    ensures
        plan.args.deep_view() == send_keys_args(pane_id@, text@),
        plan.failure@ == (if is_special_key(text@) {
            "Failed to send key"@
        } else {
            "Failed to send keys"@
        }),
{
    let v = chars_of(text);
    let n = v.len();
    let mut args: Vec<String> = Vec::new();
    args.push(String::from_str("send-keys"));
    if n > 0 && v[0] == '{' && v[n - 1] == '}' {
        args.push(String::from_str("-t"));
        args.push(String::from_str(pane_id));
        args.push(crate::text::string_of(&v, 1, n - 1));
        proof {
            assert(args.deep_view() =~= send_keys_args(pane_id@, text@));
        }
        KeysPlan { args, failure: String::from_str("Failed to send key") }
    } else {
        args.push(String::from_str("-l"));
        args.push(String::from_str("-t"));
        args.push(String::from_str(pane_id));
        args.push(String::from_str(text));
        proof {
            assert(args.deep_view() =~= send_keys_args(pane_id@, text@));
        }
        KeysPlan { args, failure: String::from_str("Failed to send keys") }
    }
}

/// The FIFO that carries a pane's output: `/tmp/tether-pipe-` and the pane id with its dots
/// replaced by underscores.
pub open spec fn fifo_path_spec(pane_id: Seq<char>) -> Seq<char> {
    "/tmp/tether-pipe-"@ + replace_char(pane_id, '.', '_')
}

/// The FIFO path for `pane_id`.
pub fn fifo_path(pane_id: &str) -> (p: String)
    ensures
        p@ == fifo_path_spec(pane_id@),
{
    let tail = replace_char_of(pane_id, '.', '_');
    concat_str("/tmp/tether-pipe-", tail.as_str())
}

/// The shell command that `tmux pipe-pane` runs to append a pane's output to `fifo`.
pub fn pipe_command(fifo: &str) -> (c: String)
    ensures
        c@ == "cat >> "@ + fifo@,
{
    concat_str("cat >> ", fifo)
}

/// Panes being piped and the subscribers of each pane. `P` is what keeps a pipe going, `S` a
/// subscriber's channel. Each subscriber is filed with the id it was handed when it came, by
/// which it is later taken off again.
pub struct TmuxManager<P, S> {
    pipes: Registry<P>,
    subscribers: Registry<Vec<(u64, S)>>,
    next_id: u64,
}

/// The id handed out after `id`.
pub open spec fn id_after(id: u64) -> u64 {
    if id == u64::MAX {
        0
    } else {
        (id + 1) as u64
    }
}

/// One mark per subscriber of `list`: set for those whose id is among `ids`.
pub open spec fn marks_for_ids<S>(list: Seq<(u64, S)>, ids: Seq<u64>) -> Seq<bool> {
    Seq::new(list.len(), |i: int| ids.contains(list[i].0))
}

/// The subscribers of `list` whose id is not among `ids`, in their order.
pub open spec fn without_ids<S>(list: Seq<(u64, S)>, ids: Seq<u64>) -> Seq<(u64, S)> {
    kept(list, marks_for_ids(list, ids))
}

fn marks_of_ids<S>(list: &Vec<(u64, S)>, ids: &Vec<u64>) -> (marks: Vec<bool>)
    ensures
        marks@ == marks_for_ids(list@, ids@),
{
    let mut marks: Vec<bool> = Vec::new();
    let n = list.len();
    for i in 0..n
        invariant
            n == list@.len(),
            marks@ =~= marks_for_ids(list@, ids@).take(i as int),
    {
        let id = list[i].0;
        let mut found = false;
        let m = ids.len();
        for j in 0..m
            invariant
                m == ids@.len(),
                found <==> exists|q: int| 0 <= q < j && ids@[q] == id,
        {
            if ids[j] == id {
                found = true;
            }
        }
        proof {
            assert(found == ids@.contains(id));
        }
        marks.push(found);
    }
    proof {
        assert(marks_for_ids(list@, ids@).take(n as int) =~= marks_for_ids(list@, ids@));
    }
    marks
}

impl<P, S> TmuxManager<P, S> {
    /// The panes being piped.
    pub closed spec fn piped(&self) -> Set<Seq<char>> {
        self.pipes.contents().dom()
    }

    /// The subscribers of each pane, each with its id.
    pub closed spec fn subscriber_lists(&self) -> Map<Seq<char>, Seq<(u64, S)>> {
        self.subscribers.contents().map_values(|v: Vec<(u64, S)>| v@)
    }

    /// The id the next subscriber will be handed.
    pub closed spec fn next_subscriber_id(&self) -> u64 {
        self.next_id
    }

    /// Both tables are well formed.
    pub closed spec fn wf(&self) -> bool {
        self.pipes.wf() && self.subscribers.wf()
    }

    /// No pane piped, no subscribers.
    pub fn new() -> (m: Self)
        ensures
            m.wf(),
            m.piped() =~= Set::empty(),
            m.subscriber_lists() =~= Map::empty(),
            m.next_subscriber_id() == 0,
    {
        TmuxManager { pipes: Registry::new(), subscribers: Registry::new(), next_id: 0 }
    }

    /// Whether a pipe has to be started before `pane_id` can be subscribed to.
    pub fn needs_pipe(&self, pane_id: &str) -> (b: bool)
        ensures
            b == !self.piped().contains(pane_id@),
    {
        !self.pipes.contains_key(pane_id)
    }

    /// Records the pipe of `pane_id`.
    pub fn record_pipe(&mut self, pane_id: &str, pipe: P)
        requires
            old(self).wf(),
        ensures
            final(self).wf(),
            final(self).piped() == old(self).piped().insert(pane_id@),
            final(self).subscriber_lists() == old(self).subscriber_lists(),
            final(self).next_subscriber_id() == old(self).next_subscriber_id(),
    {
        self.pipes.insert(String::from_str(pane_id), pipe);
        proof {
            assert(self.piped() =~= old(self).piped().insert(pane_id@));
        }
    }

    /// Forgets the pipe of `pane_id`, handing back what kept it going.
    pub fn forget_pipe(&mut self, pane_id: &str) -> (pipe: Option<P>)
        requires
            old(self).wf(),
        ensures
            final(self).wf(),
            final(self).piped() == old(self).piped().remove(pane_id@),
            final(self).subscriber_lists() == old(self).subscriber_lists(),
            final(self).next_subscriber_id() == old(self).next_subscriber_id(),
            pipe is Some <==> old(self).piped().contains(pane_id@),
    {
        let p = self.pipes.remove(pane_id);
        proof {
            assert(self.piped() =~= old(self).piped().remove(pane_id@));
        }
        p
    }

    /// The subscribers of `pane_id` as they are now, each with its id, if it has a list.
    pub fn subscribers_of(&self, pane_id: &str) -> (r: Option<&Vec<(u64, S)>>)
        requires
            self.wf(),
        ensures
            r matches Some(v) ==> self.subscriber_lists().contains_key(pane_id@) && v@
                == self.subscriber_lists()[pane_id@],
            r is None ==> !self.subscriber_lists().contains_key(pane_id@),
    {
        self.subscribers.get(pane_id)
    }

    /// Appends a subscriber to the list of `pane_id`, starting the list when there is none,
    /// and returns the id it is filed under.
    pub fn add_subscriber(&mut self, pane_id: &str, s: S) -> (id: u64)
        requires
            old(self).wf(),
        ensures
            final(self).wf(),
            id == old(self).next_subscriber_id(),
            final(self).next_subscriber_id() == id_after(id),
            final(self).piped() == old(self).piped(),
            final(self).subscriber_lists() == old(self).subscriber_lists().insert(
                pane_id@,
                subscribers_or_none(old(self).subscriber_lists(), pane_id@).push((id, s)),
            ),
    {
        let id = self.next_id;
        self.next_id = id.wrapping_add(1);
        if self.subscribers.contains_key(pane_id) {
            let mut list = self.subscribers.replace(pane_id, Vec::new());
            list.push((id, s));
            self.subscribers.replace(pane_id, list);
        } else {
            let mut list: Vec<(u64, S)> = Vec::new();
            list.push((id, s));
            self.subscribers.insert(String::from_str(pane_id), list);
        }
        proof {
            assert(self.subscriber_lists() =~= old(self).subscriber_lists().insert(
                pane_id@,
                subscribers_or_none(old(self).subscriber_lists(), pane_id@).push((id, s)),
            ));
        }
        id
    }

    /// Drops the subscribers of `pane_id` whose id is among `ids` and says whether none is left.
    fn drop_subscribers(&mut self, pane_id: &str, ids: &Vec<u64>) -> (now_empty: bool)
        requires
            old(self).wf(),
            old(self).subscriber_lists().contains_key(pane_id@),
        ensures
            final(self).wf(),
            final(self).piped() == old(self).piped(),
            final(self).next_subscriber_id() == old(self).next_subscriber_id(),
            final(self).subscriber_lists() == old(self).subscriber_lists().insert(
                pane_id@,
                without_ids(old(self).subscriber_lists()[pane_id@], ids@),
            ),
            now_empty == (without_ids(old(self).subscriber_lists()[pane_id@], ids@).len() == 0),
    {
        let mut list = self.subscribers.replace(pane_id, Vec::new());
        let marks = marks_of_ids(&list, ids);
        retain_unmarked(&mut list, &marks);
        let now_empty = list.len() == 0;
        self.subscribers.replace(pane_id, list);
        proof {
            assert(self.subscriber_lists() =~= old(self).subscriber_lists().insert(
                pane_id@,
                without_ids(old(self).subscriber_lists()[pane_id@], ids@),
            ));
        }
        now_empty
    }

    /// Drops the subscribers of `pane_id` whose channel refused the last output (their ids are
    /// `failed`); the pipe keeps running. A pane without a list is left alone.
    pub fn drop_failed_subscribers(&mut self, pane_id: &str, failed: &Vec<u64>)
        requires
            old(self).wf(),
        ensures
            final(self).wf(),
            final(self).piped() == old(self).piped(),
            final(self).next_subscriber_id() == old(self).next_subscriber_id(),
            final(self).subscriber_lists() == if old(self).subscriber_lists().contains_key(pane_id@) {
                old(self).subscriber_lists().insert(
                    pane_id@,
                    without_ids(old(self).subscriber_lists()[pane_id@], failed@),
                )
            } else {
                old(self).subscriber_lists()
            },
    {
        if self.subscribers.contains_key(pane_id) {
            self.drop_subscribers(pane_id, failed);
        }
    }

    /// Takes the subscriber filed under `id` off the list of `pane_id`. When none is left the
    /// pane's pipe is forgotten, and the answer is `true`: its piping has to be stopped. A pane
    /// without a list is left alone.
    pub fn unsubscribe_pane(&mut self, pane_id: &str, id: u64) -> (stop: bool)
        requires
            old(self).wf(),
        ensures
            final(self).wf(),
            final(self).next_subscriber_id() == old(self).next_subscriber_id(),
            !old(self).subscriber_lists().contains_key(pane_id@) ==> !stop && final(self).piped() == old(self).piped()
                && final(self).subscriber_lists() == old(self).subscriber_lists(),
            old(self).subscriber_lists().contains_key(pane_id@) ==> {
                let left = without_ids(old(self).subscriber_lists()[pane_id@], seq![id]);
                &&& final(self).subscriber_lists() == old(self).subscriber_lists().insert(pane_id@, left)
                &&& stop == (left.len() == 0)
                &&& final(self).piped() == if stop {
                    old(self).piped().remove(pane_id@)
                } else {
                    old(self).piped()
                }
            },
    {
        if self.subscribers.contains_key(pane_id) {
            let mut ids: Vec<u64> = Vec::new();
            ids.push(id);
            proof {
                assert(ids@ =~= seq![id]);
            }
            let empty = self.drop_subscribers(pane_id, &ids);
            if empty {
                self.forget_pipe(pane_id);
            }
            empty
        } else {
            false
        }
    }

    /// tmux panes are sized by the tmux client, so a resize request is accepted and changes
    /// nothing.
    pub fn resize_pane(&self, pane_id: &str, rows: u16, cols: u16) -> (r: Result<(), String>)
        ensures
            r is Ok,
    {
        Ok(())
    }
}

proof fn lemma_kept_unmarked<S>(items: Seq<S>, drop: Seq<bool>)
    requires
        forall|i: int| 0 <= i < items.len() ==> !#[trigger] drop[i],
    ensures
        kept(items, drop) == items,
    decreases items.len(),
{
    if items.len() > 0 {
        lemma_kept_unmarked(items.drop_last(), drop);
        assert(items.drop_last().push(items.last()) =~= items);
    }
}

/// Taking a subscriber off by the id it was handed gives back the list it joined, when no other
/// subscriber there has that id.
pub proof fn law_unsubscribe_undoes_subscribe<S>(list: Seq<(u64, S)>, id: u64, s: S)
    requires
        forall|i: int| 0 <= i < list.len() ==> (#[trigger] list[i]).0 != id,
    ensures
        without_ids(list.push((id, s)), seq![id]) == list,
{
    let items = list.push((id, s));
    let marks = marks_for_ids(items, seq![id]);
    assert(items.drop_last() =~= list);
    assert(marks[items.len() - 1]) by {
        assert(seq![id][0] == id);
    }
    assert forall|i: int| 0 <= i < list.len() implies !#[trigger] marks[i] by {
        assert(items[i] == list[i]);
        if seq![id].contains(items[i].0) {
            let q = choose|q: int| 0 <= q < 1 && seq![id][q] == items[i].0;
            assert(seq![id][q] == id);
        }
    }
    lemma_kept_unmarked(list, marks);
}

/// The subscribers listed for `pane`, none when it has no list.
pub open spec fn subscribers_or_none<S>(lists: Map<Seq<char>, Seq<S>>, pane: Seq<char>) -> Seq<S> {
    if lists.contains_key(pane) {
        lists[pane]
    } else {
        Seq::empty()
    }
}

} // verus!
