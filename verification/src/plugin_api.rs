//! The contract between the host and its plugins: the plugin interface, the
//! command table a plugin registers, and the context an invocation runs in.

use vstd::prelude::*;

use crate::optparse::{strs_model, OptDef, ParsedOpts};
use crate::strutil;

verus! {

/// What a plugin invocation sees of the event it handles: the channel and
/// sender, and the send-to-channel capability. Sending is modeled as a queue
/// of outgoing messages that the runtime transmits once the invocation
/// returns.
pub struct Context {
    pub channel: String,
    pub sender: String,
    pub outbox: Vec<String>,
}

/// A message split into chunks, starting at `i`: each chunk is the longest
/// run of whole characters whose UTF-8 encoding fits in `size` bytes, trimmed
/// of whitespace and dropped if nothing remains. Once no whole character fits
/// the budget, nothing more is sent.
pub open spec fn sent_chunks(s: Seq<char>, i: int, size: int) -> Seq<Seq<char>>
    decreases s.len() - i,
    when 0 <= i
    via sent_chunks_decreases
{
    if i >= s.len() {
        Seq::empty()
    } else {
        let k = strutil::fit_len(s, i, size);
        if k <= 0 {
            Seq::empty()
        } else {
            let piece = strutil::trim_ws(s, i, i + k);
            if piece.len() > 0 {
                seq![piece] + sent_chunks(s, i + k, size)
            } else {
                sent_chunks(s, i + k, size)
            }
        }
    }
}

#[via_fn]
proof fn sent_chunks_decreases(s: Seq<char>, i: int, size: int) {
    if 0 <= i < s.len() {
        strutil::lemma_fit_len_range(s, i, size);
    }
}

/// The byte budget a message is chunked to before sending: the transport
/// cuts lines off not far above this.
pub const SEND_CHUNK_LEN: usize = 400;

impl Context {
    pub fn new(channel: String, sender: String) -> (r: Context)
        ensures
            r.channel == channel,
            r.sender == sender,
            r.outbox@.len() == 0,
    {
        Context { channel, sender, outbox: Vec::new() }
    }

    /// Queue a message for the channel of this context, in chunks of at most
    /// [`SEND_CHUNK_LEN`] bytes of UTF-8, cut at character boundaries;
    /// chunks that are blank after trimming are dropped.
    pub fn send_channel(&mut self, msg: &str)
        ensures
            final(self).channel == old(self).channel,
            final(self).sender == old(self).sender,
            strs_model(final(self).outbox@) == strs_model(old(self).outbox@) + sent_chunks(
                msg@,
                0,
                SEND_CHUNK_LEN as int,
            ),
    {
        let chars = strutil::str_to_chars(msg);
        let len = chars.len();
        let mut pos: usize = 0;
        proof {
            assert(strs_model(self.outbox@) =~= strs_model(old(self).outbox@) + Seq::empty());
        }
        while pos < len
            invariant
                pos <= len == chars@.len(),
                chars@ == msg@,
                self.channel == old(self).channel,
                self.sender == old(self).sender,
                strs_model(old(self).outbox@) + sent_chunks(msg@, 0, SEND_CHUNK_LEN as int)
                    == strs_model(self.outbox@) + sent_chunks(
                    msg@,
                    pos as int,
                    SEND_CHUNK_LEN as int,
                ),
            decreases len - pos,
        {
            let k = strutil::take_within(&chars, pos, SEND_CHUNK_LEN);
            if k == 0 {
                // no whole character fits the budget: nothing more is sent
                return;
            }
            let piece = strutil::trim_ws_string(&chars, pos, pos + k);
            if piece.unicode_len() > 0 {
                self.outbox.push(piece);
                proof {
                    assert(strs_model(self.outbox@) =~= strs_model(self.outbox@.drop_last()).push(
                        strutil::trim_ws(msg@, pos as int, pos + k as int),
                    ));
                    assert(strs_model(self.outbox@) + sent_chunks(
                        msg@,
                        pos + k as int,
                        SEND_CHUNK_LEN as int,
                    ) =~= strs_model(self.outbox@.drop_last()) + sent_chunks(
                        msg@,
                        pos as int,
                        SEND_CHUNK_LEN as int,
                    ));
                }
            }
            pos = pos + k;
        }
        proof {
            assert(strs_model(final(self).outbox@) =~= strs_model(old(self).outbox@)
                + sent_chunks(msg@, 0, SEND_CHUNK_LEN as int));
        }
    }
}

/// A named, invocable command: its name, help line, and option grammar. The
/// handler itself lives with the plugin that registered the command; an
/// invocation addresses it by plugin name and command name.
pub struct Command {
    pub name: String,
    pub help: String,
    pub opts: Vec<OptDef>,
}

impl Command {
    pub fn new(name: String, help: String) -> (r: Command)
        ensures
            r.name == name,
            r.help == help,
            r.opts@.len() == 0,
    {
        Command { name, help, opts: Vec::new() }
    }

    /// Extend the command's option grammar by one option.
    pub fn opt(self, short: char, long: String, help: String, takes_args: bool) -> (r: Command)
        ensures
            r.name == self.name,
            r.help == self.help,
            r.opts@.len() == self.opts@.len() + 1,
            r.opts@.drop_last() == self.opts@,
            r.opts@.last().short == short,
            r.opts@.last().long == long,
            r.opts@.last().help == help,
            r.opts@.last().takes_args == takes_args,
    {
        let mut opts = self.opts;
        opts.push(OptDef { short, long, help, takes_args });
        let r = Command { name: self.name, help: self.help, opts };
        proof {
            assert(r.opts@.drop_last() =~= self.opts@);
        }
        r
    }
}

/// A plugin's command table, filled by the plugin's `register` right after
/// construction and read by dispatch from then on.
pub struct PluginMeta {
    pub commands: Vec<Command>,
}

impl PluginMeta {
    pub fn new() -> (r: PluginMeta)
        ensures
            r.commands@.len() == 0,
    {
        PluginMeta { commands: Vec::new() }
    }

    /// Add a command to the table.
    pub fn add_command(&mut self, command: Command)
        ensures
            final(self).commands@ == old(self).commands@.push(command),
    {
        self.commands.push(command);
    }

    /// Add a command that declares no options.
    pub fn add_simple_command(&mut self, name: String, help: String)
        ensures
            final(self).commands@.len() == old(self).commands@.len() + 1,
            final(self).commands@.drop_last() == old(self).commands@,
            final(self).commands@.last().name == name,
            final(self).commands@.last().help == help,
            final(self).commands@.last().opts@.len() == 0,
    {
        let c = Command::new(name, help);
        self.commands.push(c);
        proof {
            assert(final(self).commands@.drop_last() =~= old(self).commands@);
        }
    }
}

impl Default for PluginMeta {
    fn default() -> (r: PluginMeta)
        ensures
            r.commands@.len() == 0,
    {
        PluginMeta::new()
    }
}

/// The capability set every loadable plugin provides. The host calls
/// plugins only through this interface; the implementations live in the
/// separately compiled plugin modules, so nothing is promised of what the
/// methods do.
pub trait Plugin {
    /// Construct the plugin; a plugin takes no construction arguments.
    fn new() -> Self where Self: Sized;

    /// Describe the plugin's commands, called exactly once, right after
    /// construction and before the plugin is exposed to dispatch. It only
    /// describes capabilities.
    fn register(&self, meta: &mut PluginMeta);

    /// Called for every message on a channel, whether or not the message was
    /// also recognized as a command.
    fn channel_msg(&mut self, msg: &str, ctx: &mut Context);

    /// Handle one of the plugin's registered commands, with the arguments
    /// parsed against the grammar the command declared.
    fn on_command(&mut self, name: &str, args: ParsedOpts, ctx: &mut Context);
}

} // verus!
