//! Per-message dispatch: what one inbound chat line makes the host do.
//!
//! Dispatch itself performs no plugin call and sends nothing: it turns the
//! line into a [`DispatchPlan`] — replies the host owes the channel (help
//! text, the unknown-command notice) and the invocations to run, each on its
//! own failure-isolated unit of concurrency. The runtime executes the plan
//! and folds each invocation's [`InvocationOutcome`] back into channel
//! messages with [`collect_outcomes`].

use vstd::prelude::*;

use crate::manager::{InstanceHandle, PluginManager, PluginContainer};
use crate::optparse;
use crate::optparse::{
    find_in, find_nonblank, sp_parse, strs_model, OptModel, ParsedOpts,
};
use crate::plugin_api::Command;
use crate::strutil;
use crate::strutil::alphabetic;

verus! {

/// One inbound chat line: where it happened, who sent it, and its text.
pub struct ChatEvent {
    pub channel: String,
    pub sender: String,
    pub message: String,
}

/// One unit of work the runtime must run, failure-isolated and concurrent
/// with every other invocation.
#[derive(Debug)]
pub enum Invocation {
    /// A matched named command of one plugin, with its parsed arguments.
    Command { plugin: String, instance: InstanceHandle, command: String, args: ParsedOpts },
    /// The generic per-message callback of one plugin.
    Broadcast { plugin: String, instance: InstanceHandle, message: String },
}

/// Model of an invocation over character sequences.
pub enum InvModel {
    Command {
        plugin: Seq<char>,
        instance: InstanceHandle,
        command: Seq<char>,
        args: (Seq<OptModel>, Seq<Seq<char>>),
    },
    Broadcast { plugin: Seq<char>, instance: InstanceHandle, message: Seq<char> },
}

pub open spec fn inv_model(i: Invocation) -> InvModel {
    match i {
        Invocation::Command { plugin, instance, command, args } => InvModel::Command {
            plugin: plugin@,
            instance: instance,
            command: command@,
            args: (optparse::po_opts(args), optparse::po_free(args)),
        },
        Invocation::Broadcast { plugin, instance, message } => InvModel::Broadcast {
            plugin: plugin@,
            instance: instance,
            message: message@,
        },
    }
}

pub open spec fn invs_model(v: Seq<Invocation>) -> Seq<InvModel> {
    v.map_values(|i: Invocation| inv_model(i))
}

/// What dispatching one chat line amounts to: the host's own replies to the
/// channel, and the invocations to run concurrently.
pub struct DispatchPlan {
    pub replies: Vec<String>,
    pub invocations: Vec<Invocation>,
}

/// A line is a command invocation exactly when the prefix is immediately
/// followed by an alphabetic character; a digit or punctuation after the
/// prefix is not a command.
pub open spec fn spec_is_valid_command(m: Seq<char>, p: Seq<char>) -> bool {
    &&& m.len() > p.len()
    &&& m.subrange(0, p.len() as int) == p
    &&& alphabetic(m[p.len() as int])
}

pub fn is_valid_command(message: &str, prefix: &str) -> (r: bool)
    ensures
        r == spec_is_valid_command(message@, prefix@),
{
    let mlen = message.unicode_len();
    let plen = prefix.unicode_len();
    if mlen <= plen {
        return false;
    }
    let mut i: usize = 0;
    while i < plen
        invariant
            i <= plen == prefix@.len(),
            mlen == message@.len(),
            plen < mlen,
            forall|j: int| 0 <= j < i ==> message@[j] == prefix@[j],
        decreases plen - i,
    {
        if message.get_char(i) != prefix.get_char(i) {
            proof {
                assert(message@.subrange(0, plen as int)[i as int] != prefix@[i as int]);
            }
            return false;
        }
        i = i + 1;
    }
    proof {
        assert(message@.subrange(0, plen as int) =~= prefix@);
    }
    message.get_char(plen).is_alphabetic()
}

/// Whether the line is the help invocation: the command prefix immediately
/// followed by `help`.
pub open spec fn is_help(m: Seq<char>, p: Seq<char>) -> bool {
    &&& m.len() >= p.len() + 4
    &&& m.subrange(0, p.len() as int) == p
    &&& m[p.len() as int] == 'h'
    &&& m[p.len() + 1 as int] == 'e'
    &&& m[p.len() + 2 as int] == 'l'
    &&& m[p.len() + 3 as int] == 'p'
}

fn check_is_help(msg: &Vec<char>, prefix: &str) -> (r: bool)
    ensures
        r == is_help(msg@, prefix@),
{
    let plen = prefix.unicode_len();
    let mlen = msg.len();
    if mlen < plen || plen > usize::MAX - 4 || mlen - plen < 4 {
        return false;
    }
    let mut i: usize = 0;
    while i < plen
        invariant
            i <= plen == prefix@.len(),
            mlen == msg@.len(),
            plen + 4 <= mlen,
            forall|j: int| 0 <= j < i ==> msg@[j] == prefix@[j],
        decreases plen - i,
    {
        if msg[i] != prefix.get_char(i) {
            proof {
                assert(msg@.subrange(0, plen as int)[i as int] != prefix@[i as int]);
            }
            return false;
        }
        i = i + 1;
    }
    proof {
        assert(msg@.subrange(0, plen as int) =~= prefix@);
    }
    msg[plen] == 'h' && msg[plen + 1] == 'e' && msg[plen + 2] == 'l' && msg[plen + 3] == 'p'
}

/// Index of the first command named `name` in a table, scanning from `j`.
pub open spec fn cmd_idx(cmds: Seq<Command>, name: Seq<char>, j: int) -> Option<int>
    decreases cmds.len() - j,
{
    if j < 0 || j >= cmds.len() {
        None
    } else if cmds[j].name@ == name {
        Some(j)
    } else {
        cmd_idx(cmds, name, j + 1)
    }
}

/// The first (entry, command) position, in enumeration order, whose command
/// table registers `name`, scanning entries from `k`.
pub open spec fn find_cmd(
    entries: Seq<(String, PluginContainer)>,
    name: Seq<char>,
    k: int,
) -> Option<(int, int)>
    decreases entries.len() - k,
{
    if k < 0 || k >= entries.len() {
        None
    } else {
        match cmd_idx(entries[k].1.meta.commands@, name, 0) {
            Some(j) => Some((k, j)),
            None => find_cmd(entries, name, k + 1),
        }
    }
}

/// Whether any resident plugin registers a command of this name.
pub open spec fn has_cmd(entries: Seq<(String, PluginContainer)>, name: Seq<char>) -> bool {
    find_cmd(entries, name, 0) is Some
}

/// The names of the commands of one table from `j` on, each followed by a
/// comma and a space.
pub open spec fn cmds_names_text(cmds: Seq<Command>, j: int) -> Seq<char>
    decreases cmds.len() - j,
{
    if j < 0 || j >= cmds.len() {
        Seq::empty()
    } else {
        cmds[j].name@ + ", "@ + cmds_names_text(cmds, j + 1)
    }
}

/// The names of every registered command, over the entries from `k` on, in
/// enumeration order.
pub open spec fn all_names_text(entries: Seq<(String, PluginContainer)>, k: int) -> Seq<char>
    decreases entries.len() - k,
{
    if k < 0 || k >= entries.len() {
        Seq::empty()
    } else {
        cmds_names_text(entries[k].1.meta.commands@, 0) + all_names_text(entries, k + 1)
    }
}

/// The reply to the help invocation: the named command's help text if the
/// argument names a registered command (first match in enumeration order),
/// otherwise the list of every registered command name.
pub open spec fn help_reply(
    entries: Seq<(String, PluginContainer)>,
    prefix: Seq<char>,
    sender: Seq<char>,
    m: Seq<char>,
) -> Seq<char> {
    let aggregate = sender + ": "@ + "The following commands are available ("@ + prefix
        + "help <command>): "@ + all_names_text(entries, 0);
    match find_nonblank(m, prefix.len() + 4 as int, m.len() as int) {
        None => aggregate,
        Some(a) => {
            let tend = match find_in(m, a, m.len() as int, ' ') {
                Some(p) => p,
                None => m.len() as int,
            };
            let token = m.subrange(a, tend);
            match find_cmd(entries, token, 0) {
                Some(kj) => sender + ": "@ + entries[kj.0].1.meta.commands@[kj.1].help@,
                None => aggregate,
            }
        },
    }
}

/// Find the first plugin registering `name`, as positions into the registry.
fn find_cmd_exec(mgr: &PluginManager, name: &Vec<char>, from: usize, to: usize) -> (r: Option<
    (usize, usize),
>)
    requires
        from <= to <= name@.len(),
    ensures
        r matches Some(kj) ==> find_cmd(mgr.entries(), name@.subrange(from as int, to as int), 0)
            == Some((kj.0 as int, kj.1 as int)) && kj.0 < mgr.entries().len() && kj.1
            < mgr.entries()[kj.0 as int].1.meta.commands@.len(),
        r is None ==> find_cmd(mgr.entries(), name@.subrange(from as int, to as int), 0) is None,
{
    let ghost token = name@.subrange(from as int, to as int);
    let n = mgr.count();
    let mut k: usize = 0;
    while k < n
        invariant
            k <= n == mgr.entries().len(),
            from <= to <= name@.len(),
            token == name@.subrange(from as int, to as int),
            find_cmd(mgr.entries(), token, 0) == find_cmd(mgr.entries(), token, k as int),
        decreases n - k,
    {
        let entry = mgr.entry(k);
        let m = entry.1.meta.commands.len();
        let mut j: usize = 0;
        while j < m
            invariant
                k < n == mgr.entries().len(),
                j <= m == mgr.entries()[k as int].1.meta.commands@.len(),
                from <= to <= name@.len(),
                token == name@.subrange(from as int, to as int),
                *entry == mgr.entries()[k as int],
                find_cmd(mgr.entries(), token, 0) == find_cmd(mgr.entries(), token, k as int),
                cmd_idx(mgr.entries()[k as int].1.meta.commands@, token, 0) == cmd_idx(
                    mgr.entries()[k as int].1.meta.commands@,
                    token,
                    j as int,
                ),
            decreases m - j,
        {
            if optparse::str_eq_range(entry.1.meta.commands[j].name.as_str(), name, from, to) {
                return Some((k, j));
            }
            j = j + 1;
        }
        k = k + 1;
    }
    None
}

/// Build the help reply for a help invocation.
fn build_help_reply(mgr: &PluginManager, prefix: &str, sender: &str, msg: &Vec<char>) -> (r:
    String)
    requires
        is_help(msg@, prefix@),
    ensures
        r@ == help_reply(mgr.entries(), prefix@, sender@, msg@),
{
    let plen = prefix.unicode_len();
    let mlen = msg.len();
    let arg = optparse::next_nonblank_at(msg, plen + 4, mlen);
    match arg {
        Some(a) => {
            let tend = match optparse::find_char_at(msg, a, mlen, ' ') {
                Some(p) => p,
                None => mlen,
            };
            match find_cmd_exec(mgr, msg, a, tend) {
                Some((k, j)) => {
                    let mut r = String::new();
                    r.append(sender);
                    r.append(": ");
                    r.append(mgr.entry(k).1.meta.commands[j].help.as_str());
                    return r;
                },
                None => build_aggregate_help(mgr, prefix, sender),
            }
        },
        None => build_aggregate_help(mgr, prefix, sender),
    }
}

fn build_aggregate_help(mgr: &PluginManager, prefix: &str, sender: &str) -> (r: String)
    ensures
        r@ == sender@ + ": "@ + "The following commands are available ("@ + prefix@
            + "help <command>): "@ + all_names_text(mgr.entries(), 0),
{
    let mut r = String::new();
    r.append(sender);
    r.append(": ");
    r.append("The following commands are available (");
    r.append(prefix);
    r.append("help <command>): ");
    let ghost header = sender@ + ": "@ + "The following commands are available ("@ + prefix@
        + "help <command>): "@;
    proof {
        assert(r@ =~= header + all_names_text(mgr.entries(), 0).take(0));
    }
    let n = mgr.count();
    let mut k: usize = 0;
    while k < n
        invariant
            k <= n == mgr.entries().len(),
            header == sender@ + ": "@ + "The following commands are available ("@ + prefix@
                + "help <command>): "@,
            header + all_names_text(mgr.entries(), 0) == r@ + all_names_text(
                mgr.entries(),
                k as int,
            ),
        decreases n - k,
    {
        let entry = mgr.entry(k);
        let m = entry.1.meta.commands.len();
        let mut j: usize = 0;
        while j < m
            invariant
                k < n == mgr.entries().len(),
                j <= m == mgr.entries()[k as int].1.meta.commands@.len(),
                *entry == mgr.entries()[k as int],
                header + all_names_text(mgr.entries(), 0) == r@ + cmds_names_text(
                    mgr.entries()[k as int].1.meta.commands@,
                    j as int,
                ) + all_names_text(mgr.entries(), k + 1 as int),
            decreases m - j,
        {
            r.append(entry.1.meta.commands[j].name.as_str());
            r.append(", ");
            proof {
                let cmds = mgr.entries()[k as int].1.meta.commands@;
                assert(cmds_names_text(cmds, j as int) =~= cmds[j as int].name@ + ", "@
                    + cmds_names_text(cmds, j + 1 as int));
                assert(r@ + cmds_names_text(cmds, j + 1 as int) + all_names_text(
                    mgr.entries(),
                    k + 1 as int,
                ) =~= header + all_names_text(mgr.entries(), 0));
            }
            j = j + 1;
        }
        k = k + 1;
        proof {
            assert(r@ + all_names_text(mgr.entries(), k as int) =~= header + all_names_text(
                mgr.entries(),
                0,
            ));
        }
    }
    proof {
        assert(r@ =~= header + all_names_text(mgr.entries(), 0));
    }
    r
}


// ---------------------------------------------------------------------------
// Command resolution.
// ---------------------------------------------------------------------------

/// The edit distance between two texts, as computed by
/// `distance::damerau_levenshtein`.
pub uninterp spec fn edit_distance(a: Seq<char>, b: Seq<char>) -> nat;

/// Relies on distance::damerau_levenshtein: the Damerau-Levenshtein edit
/// distance between two strings, a pure function of the two texts.
#[verifier::external_body]
fn damerau_levenshtein(a: &str, b: &str) -> (r: usize)
    ensures
        r as nat == edit_distance(a@, b@),
{
    distance::damerau_levenshtein(a, b)
}

/// The distance every candidate beats: no suggestion yet.
pub open spec fn no_distance() -> nat {
    usize::MAX as nat
}

/// Fold the closest-name search over one command table from `j` on: a name
/// strictly closer to the token than the best so far replaces it, so the
/// first of equally close names wins.
pub open spec fn closest_in_cmds(
    cmds: Seq<Command>,
    token: Seq<char>,
    j: int,
    best: (Seq<char>, nat),
) -> (Seq<char>, nat)
    decreases cmds.len() - j,
{
    if j < 0 || j >= cmds.len() {
        best
    } else {
        let d = edit_distance(token, cmds[j].name@);
        closest_in_cmds(
            cmds,
            token,
            j + 1,
            if cmds[j].name@ != token && d < best.1 {
                (cmds[j].name@, d)
            } else {
                best
            },
        )
    }
}

/// The closest-name fold over every entry from `k` on, in enumeration order.
pub open spec fn closest_in_entries(
    entries: Seq<(String, PluginContainer)>,
    token: Seq<char>,
    k: int,
    best: (Seq<char>, nat),
) -> (Seq<char>, nat)
    decreases entries.len() - k,
{
    if k < 0 || k >= entries.len() {
        best
    } else {
        closest_in_entries(
            entries,
            token,
            k + 1,
            closest_in_cmds(entries[k].1.meta.commands@, token, 0, best),
        )
    }
}

/// The reply to a command nobody registers, with the closest known command
/// name as a suggestion.
pub open spec fn unknown_reply(entries: Seq<(String, PluginContainer)>, token: Seq<char>) -> Seq<
    char,
> {
    "Unknown command: "@ + token + ". Did you mean '"@ + closest_in_entries(
        entries,
        token,
        0,
        (Seq::empty(), no_distance()),
    ).0 + "'?"@
}

/// The reply when a matched command's arguments do not parse against its
/// declared option grammar.
pub open spec fn invalid_args_reply(sender: Seq<char>, token: Seq<char>) -> Seq<char> {
    sender + ": could not parse arguments for '"@ + token + "'"@
}

/// A matched command's arguments: empty argument text parses to nothing,
/// anything else is parsed against the command's option grammar.
pub open spec fn args_of(argstr: Seq<char>, opts: Seq<optparse::OptDef>) -> Result<
    (Seq<OptModel>, Seq<Seq<char>>),
    optparse::ParseFailure,
> {
    if argstr.len() == 0 {
        Ok((Seq::empty(), Seq::empty()))
    } else {
        sp_parse(argstr, 0, argstr.len() as int, opts, Seq::empty(), Seq::empty())
    }
}

/// Scan one command table from `j` on: every command named `token` becomes an
/// invocation with its parsed arguments, or a reply if its arguments do not
/// parse.
pub open spec fn scan_cmds(
    pname: Seq<char>,
    inst: InstanceHandle,
    cmds: Seq<Command>,
    token: Seq<char>,
    argstr: Seq<char>,
    sender: Seq<char>,
    j: int,
) -> (Seq<InvModel>, Seq<Seq<char>>)
    decreases cmds.len() - j,
{
    if j < 0 || j >= cmds.len() {
        (Seq::empty(), Seq::empty())
    } else {
        let rest = scan_cmds(pname, inst, cmds, token, argstr, sender, j + 1);
        if cmds[j].name@ == token {
            match args_of(argstr, cmds[j].opts@) {
                Ok(a) => (
                    seq![
                        InvModel::Command {
                            plugin: pname,
                            instance: inst,
                            command: token,
                            args: a,
                        },
                    ] + rest.0,
                    rest.1,
                ),
                Err(_) => (rest.0, seq![invalid_args_reply(sender, token)] + rest.1),
            }
        } else {
            rest
        }
    }
}

/// Scan every resident plugin's table, in enumeration order.
pub open spec fn scan_entries(
    entries: Seq<(String, PluginContainer)>,
    token: Seq<char>,
    argstr: Seq<char>,
    sender: Seq<char>,
    k: int,
) -> (Seq<InvModel>, Seq<Seq<char>>)
    decreases entries.len() - k,
{
    if k < 0 || k >= entries.len() {
        (Seq::empty(), Seq::empty())
    } else {
        let own = scan_cmds(
            entries[k].0@,
            entries[k].1.plugin,
            entries[k].1.meta.commands@,
            token,
            argstr,
            sender,
            0,
        );
        let rest = scan_entries(entries, token, argstr, sender, k + 1);
        (own.0 + rest.0, own.1 + rest.1)
    }
}

/// The broadcast invocations: every resident plugin's generic handler, with
/// the raw message, in enumeration order.
pub open spec fn broadcasts(
    entries: Seq<(String, PluginContainer)>,
    msg: Seq<char>,
    k: int,
) -> Seq<InvModel>
    decreases entries.len() - k,
{
    if k < 0 || k >= entries.len() {
        Seq::empty()
    } else {
        seq![
            InvModel::Broadcast {
                plugin: entries[k].0@,
                instance: entries[k].1.plugin,
                message: msg,
            },
        ] + broadcasts(entries, msg, k + 1)
    }
}

/// What dispatching one chat line amounts to, over the model: the help path
/// short-circuits everything; otherwise every plugin is broadcast to, and a
/// line recognized as a command is resolved against every table, yielding
/// command invocations, or the unknown-command reply when nobody registers
/// the name.
pub open spec fn spec_dispatch(
    entries: Seq<(String, PluginContainer)>,
    prefix: Seq<char>,
    sender: Seq<char>,
    msg: Seq<char>,
) -> (Seq<Seq<char>>, Seq<InvModel>) {
    if is_help(msg, prefix) {
        (seq![help_reply(entries, prefix, sender, msg)], Seq::empty())
    } else {
        let bcasts = broadcasts(entries, msg, 0);
        if spec_is_valid_command(msg, prefix) {
            let tend = match find_in(msg, prefix.len() as int, msg.len() as int, ' ') {
                Some(p) => p,
                None => msg.len() as int,
            };
            let token = msg.subrange(prefix.len() as int, tend);
            let astart = match find_nonblank(msg, tend, msg.len() as int) {
                Some(p) => p,
                None => msg.len() as int,
            };
            let argstr = msg.subrange(astart, msg.len() as int);
            let sc = scan_entries(entries, token, argstr, sender, 0);
            let replies = if has_cmd(entries, token) {
                sc.1
            } else {
                sc.1 + seq![unknown_reply(entries, token)]
            };
            (replies, sc.0 + bcasts)
        } else {
            (Seq::empty(), bcasts)
        }
    }
}

proof fn lemma_scan_cmds_empty(
    pname: Seq<char>,
    inst: InstanceHandle,
    cmds: Seq<Command>,
    token: Seq<char>,
    argstr: Seq<char>,
    sender: Seq<char>,
    j: int,
)
    requires
        cmd_idx(cmds, token, j) is None,
    ensures
        scan_cmds(pname, inst, cmds, token, argstr, sender, j) == (
            Seq::<InvModel>::empty(),
            Seq::<Seq<char>>::empty(),
        ),
    decreases cmds.len() - j,
{
    if 0 <= j < cmds.len() {
        lemma_scan_cmds_empty(pname, inst, cmds, token, argstr, sender, j + 1);
        assert(scan_cmds(pname, inst, cmds, token, argstr, sender, j).0
            =~= Seq::<InvModel>::empty());
        assert(scan_cmds(pname, inst, cmds, token, argstr, sender, j).1
            =~= Seq::<Seq<char>>::empty());
    }
}

/// A command nobody registers is answered, not silently dropped and not
/// crashed on: the table scan contributes no invocation and no reply of its
/// own, so dispatch of such a line yields exactly the one unknown-command
/// reply (beside the usual broadcasts).
pub proof fn lemma_unknown_command(
    entries: Seq<(String, PluginContainer)>,
    token: Seq<char>,
    argstr: Seq<char>,
    sender: Seq<char>,
)
    requires
        !has_cmd(entries, token),
    ensures
        scan_entries(entries, token, argstr, sender, 0) == (
            Seq::<InvModel>::empty(),
            Seq::<Seq<char>>::empty(),
        ),
{
    lemma_scan_entries_empty(entries, token, argstr, sender, 0);
}

proof fn lemma_scan_entries_empty(
    entries: Seq<(String, PluginContainer)>,
    token: Seq<char>,
    argstr: Seq<char>,
    sender: Seq<char>,
    k: int,
)
    requires
        find_cmd(entries, token, k) is None,
    ensures
        scan_entries(entries, token, argstr, sender, k) == (
            Seq::<InvModel>::empty(),
            Seq::<Seq<char>>::empty(),
        ),
    decreases entries.len() - k,
{
    if 0 <= k < entries.len() {
        lemma_scan_cmds_empty(
            entries[k].0@,
            entries[k].1.plugin,
            entries[k].1.meta.commands@,
            token,
            argstr,
            sender,
            0,
        );
        lemma_scan_entries_empty(entries, token, argstr, sender, k + 1);
        assert(scan_entries(entries, token, argstr, sender, k).0 =~= Seq::<InvModel>::empty());
        assert(scan_entries(entries, token, argstr, sender, k).1 =~= Seq::<Seq<char>>::empty());
    }
}

/// Resolve a recognized command against every resident plugin's table:
/// matched commands become invocations (or an invalid-arguments reply), and
/// a name nobody registers becomes the unknown-command reply with the
/// closest-name suggestion.
fn handle_command(
    mgr: &PluginManager,
    sender: &str,
    token: &String,
    argstr: &String,
    invocations: &mut Vec<Invocation>,
    replies: &mut Vec<String>,
)
    ensures
        invs_model(final(invocations)@) == invs_model(old(invocations)@) + scan_entries(
            mgr.entries(),
            token@,
            argstr@,
            sender@,
            0,
        ).0,
        strs_model(final(replies)@) == strs_model(old(replies)@) + scan_entries(
            mgr.entries(),
            token@,
            argstr@,
            sender@,
            0,
        ).1 + (if has_cmd(mgr.entries(), token@) {
            Seq::<Seq<char>>::empty()
        } else {
            seq![unknown_reply(mgr.entries(), token@)]
        }),
{
    let ghost sc = scan_entries(mgr.entries(), token@, argstr@, sender@, 0);
    let mut found = false;
    let mut best_name = String::new();
    let mut best_d = usize::MAX;
    proof {
        assert(best_name@ =~= Seq::<char>::empty());
    }
    let n = mgr.count();
    let mut k: usize = 0;
    while k < n
        invariant
            k <= n == mgr.entries().len(),
            sc == scan_entries(mgr.entries(), token@, argstr@, sender@, 0),
            invs_model(invocations@) + scan_entries(
                mgr.entries(),
                token@,
                argstr@,
                sender@,
                k as int,
            ).0 == invs_model(old(invocations)@) + sc.0,
            strs_model(replies@) + scan_entries(
                mgr.entries(),
                token@,
                argstr@,
                sender@,
                k as int,
            ).1 == strs_model(old(replies)@) + sc.1,
            found ==> has_cmd(mgr.entries(), token@),
            !found ==> find_cmd(mgr.entries(), token@, 0) == find_cmd(
                mgr.entries(),
                token@,
                k as int,
            ),
            closest_in_entries(mgr.entries(), token@, 0, (Seq::empty(), no_distance()))
                == closest_in_entries(
                mgr.entries(),
                token@,
                k as int,
                (best_name@, best_d as nat),
            ),
        decreases n - k,
    {
        let entry = mgr.entry(k);
        let m = entry.1.meta.commands.len();
        let mut j: usize = 0;
        while j < m
            invariant
                k < n == mgr.entries().len(),
                j <= m == mgr.entries()[k as int].1.meta.commands@.len(),
                *entry == mgr.entries()[k as int],
                sc == scan_entries(mgr.entries(), token@, argstr@, sender@, 0),
                invs_model(invocations@) + scan_cmds(
                    mgr.entries()[k as int].0@,
                    mgr.entries()[k as int].1.plugin,
                    mgr.entries()[k as int].1.meta.commands@,
                    token@,
                    argstr@,
                    sender@,
                    j as int,
                ).0 + scan_entries(mgr.entries(), token@, argstr@, sender@, k + 1 as int).0
                    == invs_model(old(invocations)@) + sc.0,
                strs_model(replies@) + scan_cmds(
                    mgr.entries()[k as int].0@,
                    mgr.entries()[k as int].1.plugin,
                    mgr.entries()[k as int].1.meta.commands@,
                    token@,
                    argstr@,
                    sender@,
                    j as int,
                ).1 + scan_entries(mgr.entries(), token@, argstr@, sender@, k + 1 as int).1
                    == strs_model(old(replies)@) + sc.1,
                found ==> has_cmd(mgr.entries(), token@),
                !found ==> find_cmd(mgr.entries(), token@, 0) == find_cmd(
                    mgr.entries(),
                    token@,
                    k as int,
                ) && cmd_idx(mgr.entries()[k as int].1.meta.commands@, token@, 0) == cmd_idx(
                    mgr.entries()[k as int].1.meta.commands@,
                    token@,
                    j as int,
                ),
                closest_in_entries(mgr.entries(), token@, 0, (Seq::empty(), no_distance()))
                    == closest_in_entries(
                    mgr.entries(),
                    token@,
                    k + 1 as int,
                    closest_in_cmds(
                        mgr.entries()[k as int].1.meta.commands@,
                        token@,
                        j as int,
                        (best_name@, best_d as nat),
                    ),
                ),
            decreases m - j,
        {
            let ghost cmds = mgr.entries()[k as int].1.meta.commands@;
            let cmd = &entry.1.meta.commands[j];
            let d = damerau_levenshtein(token.as_str(), cmd.name.as_str());
            if strutil::str_eq(cmd.name.as_str(), token.as_str()) {
                found = true;
                let parsed = if argstr.unicode_len() == 0 {
                    Ok(ParsedOpts { opts: Vec::new(), free: Vec::new() })
                } else {
                    optparse::parse(argstr.as_str(), cmd.opts.as_slice())
                };
                match parsed {
                    Ok(po) => {
                        proof {
                            if argstr@.len() == 0 {
                                assert(optparse::po_opts(po) =~= Seq::<OptModel>::empty());
                                assert(optparse::po_free(po) =~= Seq::<Seq<char>>::empty());
                            }
                        }
                        let inv = Invocation::Command {
                            plugin: entry.0.clone(),
                            instance: entry.1.plugin,
                            command: token.clone(),
                            args: po,
                        };
                        invocations.push(inv);
                        proof {
                            assert(invs_model(invocations@) =~= invs_model(
                                invocations@.drop_last(),
                            ).push(inv_model(invocations@.last())));
                            assert(scan_cmds(
                                mgr.entries()[k as int].0@,
                                mgr.entries()[k as int].1.plugin,
                                cmds,
                                token@,
                                argstr@,
                                sender@,
                                j as int,
                            ).0 =~= seq![inv_model(invocations@.last())] + scan_cmds(
                                mgr.entries()[k as int].0@,
                                mgr.entries()[k as int].1.plugin,
                                cmds,
                                token@,
                                argstr@,
                                sender@,
                                j + 1 as int,
                            ).0);
                            assert(invs_model(invocations@) + scan_cmds(
                                mgr.entries()[k as int].0@,
                                mgr.entries()[k as int].1.plugin,
                                cmds,
                                token@,
                                argstr@,
                                sender@,
                                j + 1 as int,
                            ).0 + scan_entries(
                                mgr.entries(),
                                token@,
                                argstr@,
                                sender@,
                                k + 1 as int,
                            ).0 =~= invs_model(old(invocations)@) + sc.0);
                        }
                    },
                    Err(_) => {
                        let mut reply = String::new();
                        reply.append(sender);
                        reply.append(": could not parse arguments for '");
                        reply.append(token.as_str());
                        reply.append("'");
                        replies.push(reply);
                        proof {
                            assert(strs_model(replies@) =~= strs_model(
                                replies@.drop_last(),
                            ).push(invalid_args_reply(sender@, token@)));
                            assert(strs_model(replies@) + scan_cmds(
                                mgr.entries()[k as int].0@,
                                mgr.entries()[k as int].1.plugin,
                                cmds,
                                token@,
                                argstr@,
                                sender@,
                                j + 1 as int,
                            ).1 + scan_entries(
                                mgr.entries(),
                                token@,
                                argstr@,
                                sender@,
                                k + 1 as int,
                            ).1 =~= strs_model(old(replies)@) + sc.1);
                        }
                    },
                }
            } else {
                if d < best_d {
                    best_name = cmd.name.clone();
                    best_d = d;
                }
            }
            j = j + 1;
        }
        k = k + 1;
        proof {
            assert(invs_model(invocations@) + scan_entries(
                mgr.entries(),
                token@,
                argstr@,
                sender@,
                k as int,
            ).0 =~= invs_model(old(invocations)@) + sc.0);
            assert(strs_model(replies@) + scan_entries(
                mgr.entries(),
                token@,
                argstr@,
                sender@,
                k as int,
            ).1 =~= strs_model(old(replies)@) + sc.1);
        }
    }
    if !found {
        let mut reply = String::new();
        reply.append("Unknown command: ");
        reply.append(token.as_str());
        reply.append(". Did you mean '");
        reply.append(best_name.as_str());
        reply.append("'?");
        replies.push(reply);
        proof {
            assert(strs_model(replies@) =~= strs_model(replies@.drop_last()).push(
                unknown_reply(mgr.entries(), token@),
            ));
            assert(strs_model(replies@) =~= strs_model(old(replies)@) + sc.1 + seq![
                unknown_reply(mgr.entries(), token@),
            ]);
        }
    } else {
        proof {
            assert(strs_model(replies@) =~= strs_model(old(replies)@) + sc.1);
        }
    }
    proof {
        assert(invs_model(invocations@) =~= invs_model(old(invocations)@) + sc.0);
    }
}

/// Queue every resident plugin's generic handler with the raw message.
fn delegate_non_command(mgr: &PluginManager, message: &String, invocations: &mut Vec<Invocation>)
    ensures
        invs_model(final(invocations)@) == invs_model(old(invocations)@) + broadcasts(
            mgr.entries(),
            message@,
            0,
        ),
{
    let n = mgr.count();
    let mut k: usize = 0;
    while k < n
        invariant
            k <= n == mgr.entries().len(),
            invs_model(invocations@) + broadcasts(mgr.entries(), message@, k as int)
                == invs_model(old(invocations)@) + broadcasts(mgr.entries(), message@, 0),
        decreases n - k,
    {
        let entry = mgr.entry(k);
        let inv = Invocation::Broadcast {
            plugin: entry.0.clone(),
            instance: entry.1.plugin,
            message: message.clone(),
        };
        invocations.push(inv);
        proof {
            assert(invs_model(invocations@) =~= invs_model(invocations@.drop_last()).push(
                inv_model(invocations@.last()),
            ));
            assert(invs_model(invocations@) + broadcasts(mgr.entries(), message@, k + 1 as int)
                =~= invs_model(old(invocations)@) + broadcasts(mgr.entries(), message@, 0));
        }
        k = k + 1;
    }
    proof {
        assert(invs_model(invocations@) =~= invs_model(old(invocations)@) + broadcasts(
            mgr.entries(),
            message@,
            0,
        ));
    }
}

/// Turn one inbound chat line into the plan of replies and invocations.
pub fn dispatch(mgr: &PluginManager, prefix: &str, event: &ChatEvent) -> (r: DispatchPlan)
    ensures
        ({
            let plan = spec_dispatch(mgr.entries(), prefix@, event.sender@, event.message@);
            &&& strs_model(r.replies@) == plan.0
            &&& invs_model(r.invocations@) == plan.1
        }),
{
    let msg = strutil::str_to_chars(event.message.as_str());
    if check_is_help(&msg, prefix) {
        let reply = build_help_reply(mgr, prefix, event.sender.as_str(), &msg);
        let mut replies: Vec<String> = Vec::new();
        replies.push(reply);
        let invocations: Vec<Invocation> = Vec::new();
        proof {
            assert(strs_model(replies@) =~= seq![
                help_reply(mgr.entries(), prefix@, event.sender@, event.message@),
            ]);
            assert(invs_model(invocations@) =~= Seq::<InvModel>::empty());
        }
        return DispatchPlan { replies, invocations };
    }
    let mut invocations: Vec<Invocation> = Vec::new();
    let mut replies: Vec<String> = Vec::new();
    proof {
        assert(invs_model(invocations@) =~= Seq::<InvModel>::empty());
        assert(strs_model(replies@) =~= Seq::<Seq<char>>::empty());
    }
    let valid = is_valid_command(event.message.as_str(), prefix);
    if valid {
        let plen = prefix.unicode_len();
        let mlen = msg.len();
        let tend = match optparse::find_char_at(&msg, plen, mlen, ' ') {
            Some(p) => p,
            None => mlen,
        };
        let token = strutil::string_range(&msg, plen, tend);
        let astart = match optparse::next_nonblank_at(&msg, tend, mlen) {
            Some(p) => p,
            None => mlen,
        };
        let argstr = strutil::string_range(&msg, astart, mlen);
        handle_command(mgr, event.sender.as_str(), &token, &argstr, &mut invocations, &mut replies);
    }
    let ghost sc_invs = invs_model(invocations@);
    let ghost sc_replies = strs_model(replies@);
    delegate_non_command(mgr, &event.message, &mut invocations);
    proof {
        let plan = spec_dispatch(mgr.entries(), prefix@, event.sender@, event.message@);
        assert(strs_model(replies@) =~= plan.0);
        assert(invs_model(invocations@) =~= plan.1);
    }
    DispatchPlan { replies, invocations }
}

// ---------------------------------------------------------------------------
// Invocation outcomes.
// ---------------------------------------------------------------------------

/// What one failure-isolated invocation came to: which plugin ran, whether it
/// fell to an unrecoverable fault, and the messages it queued for the
/// channel.
pub struct InvocationOutcome {
    pub plugin: String,
    pub faulted: bool,
    pub replies: Vec<String>,
}

/// The channel notice for a faulted invocation, naming the failing plugin.
pub open spec fn fault_notice(plugin: Seq<char>) -> Seq<char> {
    "[Plugin '"@ + plugin + "' failed]"@
}

/// What one outcome contributes to the channel: its own replies, or the
/// fault notice.
pub open spec fn one_outcome_msgs(o: InvocationOutcome) -> Seq<Seq<char>> {
    if o.faulted {
        seq![fault_notice(o.plugin@)]
    } else {
        strs_model(o.replies@)
    }
}

/// The messages of the outcomes `os[k..end]`, in order.
pub open spec fn outcome_msgs(os: Seq<InvocationOutcome>, k: int, end: int) -> Seq<Seq<char>>
    decreases end - k,
{
    if k < 0 || k >= end || end > os.len() {
        Seq::empty()
    } else {
        one_outcome_msgs(os[k]) + outcome_msgs(os, k + 1, end)
    }
}

/// Fold the outcomes of a plan's invocations into channel messages: each
/// completed invocation contributes its own replies, each faulted one the
/// notice naming its plugin, in order.
pub fn collect_outcomes(outcomes: &Vec<InvocationOutcome>) -> (r: Vec<String>)
    ensures
        strs_model(r@) == outcome_msgs(outcomes@, 0, outcomes@.len() as int),
{
    let n = outcomes.len();
    let mut r: Vec<String> = Vec::new();
    let mut k: usize = 0;
    proof {
        assert(strs_model(r@) =~= Seq::<Seq<char>>::empty());
    }
    while k < n
        invariant
            k <= n == outcomes@.len(),
            strs_model(r@) + outcome_msgs(outcomes@, k as int, n as int) == outcome_msgs(
                outcomes@,
                0,
                n as int,
            ),
        decreases n - k,
    {
        let o = &outcomes[k];
        if o.faulted {
            let mut notice = String::new();
            notice.append("[Plugin '");
            notice.append(o.plugin.as_str());
            notice.append("' failed]");
            r.push(notice);
            proof {
                assert(strs_model(r@) =~= strs_model(r@.drop_last()).push(
                    fault_notice(outcomes@[k as int].plugin@),
                ));
                assert(strs_model(r@) + outcome_msgs(outcomes@, k + 1 as int, n as int)
                    =~= outcome_msgs(outcomes@, 0, n as int));
            }
        } else {
            let m = o.replies.len();
            let mut i: usize = 0;
            while i < m
                invariant
                    k < n == outcomes@.len(),
                    i <= m == outcomes@[k as int].replies@.len(),
                    !outcomes@[k as int].faulted,
                    *o == outcomes@[k as int],
                    strs_model(r@) + strs_model(outcomes@[k as int].replies@.skip(i as int))
                        + outcome_msgs(outcomes@, k + 1 as int, n as int) == outcome_msgs(
                        outcomes@,
                        0,
                        n as int,
                    ),
                decreases m - i,
            {
                r.push(o.replies[i].clone());
                proof {
                    let reps = outcomes@[k as int].replies@;
                    assert(strs_model(r@) =~= strs_model(r@.drop_last()).push(
                        reps[i as int]@,
                    ));
                    assert(strs_model(reps.skip(i as int)) =~= seq![reps[i as int]@]
                        + strs_model(reps.skip(i + 1 as int)));
                    assert(strs_model(r@) + strs_model(reps.skip(i + 1 as int)) + outcome_msgs(
                        outcomes@,
                        k + 1 as int,
                        n as int,
                    ) =~= outcome_msgs(outcomes@, 0, n as int));
                }
                i = i + 1;
            }
            proof {
                let reps = outcomes@[k as int].replies@;
                assert(strs_model(reps.skip(m as int)) =~= Seq::<Seq<char>>::empty());
                assert(one_outcome_msgs(outcomes@[k as int]) =~= strs_model(reps));
                assert(strs_model(r@) + outcome_msgs(outcomes@, k + 1 as int, n as int)
                    =~= outcome_msgs(outcomes@, 0, n as int));
            }
        }
        k = k + 1;
    }
    proof {
        assert(strs_model(r@) =~= outcome_msgs(outcomes@, 0, n as int));
    }
    r
}

/// The collected messages split around one range boundary.
proof fn lemma_outcome_split(os: Seq<InvocationOutcome>, k: int, m: int, end: int)
    requires
        0 <= k <= m <= end <= os.len(),
    ensures
        outcome_msgs(os, k, end) == outcome_msgs(os, k, m) + outcome_msgs(os, m, end),
    decreases m - k,
{
    if k < m {
        lemma_outcome_split(os, k + 1, m, end);
        assert(outcome_msgs(os, k, end) =~= outcome_msgs(os, k, m) + outcome_msgs(os, m, end));
    } else {
        assert(outcome_msgs(os, k, k) =~= Seq::<Seq<char>>::empty());
        assert(outcome_msgs(os, k, end) =~= outcome_msgs(os, k, k) + outcome_msgs(os, k, end));
    }
}

/// Isolation: each invocation's contribution to the channel is its own.
/// The collected messages decompose around any position `i` into what the
/// outcomes before `i` contribute, what outcome `i` itself contributes, and
/// what the outcomes after `i` contribute; a fault elsewhere changes nothing
/// of outcome `i`'s own contribution.
pub proof fn lemma_isolation(os: Seq<InvocationOutcome>, i: int)
    requires
        0 <= i < os.len(),
    ensures
        outcome_msgs(os, 0, os.len() as int) == outcome_msgs(os, 0, i) + one_outcome_msgs(os[i])
            + outcome_msgs(os, i + 1, os.len() as int),
{
    lemma_outcome_split(os, 0, i, os.len() as int);
    assert(outcome_msgs(os, i, os.len() as int) =~= one_outcome_msgs(os[i]) + outcome_msgs(
        os,
        i + 1,
        os.len() as int,
    ));
    assert(outcome_msgs(os, 0, os.len() as int) =~= outcome_msgs(os, 0, i) + one_outcome_msgs(
        os[i],
    ) + outcome_msgs(os, i + 1, os.len() as int));
}

} // verus!
