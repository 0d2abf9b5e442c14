//! The Redis commands that store, read and list records, built as
//! `redis::Cmd` values ready to be sent.
use crate::keys::{hash_key, hash_key_spec, scan_pattern, scan_pattern_spec};
use crate::text::views;
use redis::Cmd;
use vstd::prelude::*;
use vstd::utf8::encode_utf8;

verus! {

#[verifier::external_type_specification]
#[verifier::external_body]
pub struct ExCmd(redis::Cmd);

/// The arguments of a command in order, its name first: a plain argument as
/// `Some` of its bytes, a cursor argument as `None`.
pub uninterp spec fn cmd_args(c: Cmd) -> Seq<Option<Seq<u8>>>;

/// The cursor that a command iterates from, if it has a cursor argument.
pub uninterp spec fn cmd_cursor(c: Cmd) -> Option<u64>;

/// A plain argument that holds the UTF-8 bytes of `s`.
pub open spec fn text_arg(s: Seq<char>) -> Option<Seq<u8>> {
    Some(encode_utf8(s))
}

/// The arguments of the command `name` with the plain arguments `args`.
pub open spec fn command_spec(name: Seq<char>, args: Seq<Seq<char>>) -> Seq<Option<Seq<u8>>> {
    seq![text_arg(name)] + args.map_values(|a: Seq<char>| text_arg(a))
}

/// The arguments of the command that lists the hashes of a model.
pub open spec fn scan_command_spec(prefix: Seq<char>) -> Seq<Option<Seq<u8>>> {
    seq![
        text_arg("SCAN"@),
        None,
        text_arg("MATCH"@),
        text_arg(scan_pattern_spec(prefix)),
        text_arg("TYPE"@),
        text_arg("hash"@),
    ]
}

/// Calls `redis::cmd`, which starts a command whose one argument is the name,
/// written as the bytes of the string, and which has no cursor.
#[verifier::external_body]
fn new_cmd(name: &str) -> (c: Cmd)
    ensures
        cmd_args(c) == seq![text_arg(name@)],
        cmd_cursor(c) == None::<u64>,
{
    redis::cmd(name)
}

/// Calls `Cmd::arg` with a string, which appends the string's bytes as one
/// plain argument and leaves the cursor as it was.
#[verifier::external_body]
fn push_arg(c: &mut Cmd, arg: &str)
    ensures
        cmd_args(*final(c)) == cmd_args(*old(c)).push(text_arg(arg@)),
        cmd_cursor(*final(c)) == cmd_cursor(*old(c)),
{
    c.arg(arg);
}

/// Calls `Cmd::cursor_arg`, which appends a cursor argument and makes the
/// command iterate from `cursor`; it panics where the command has a cursor
/// already.
#[verifier::external_body]
fn push_cursor(c: &mut Cmd, cursor: u64)
    requires
        cmd_cursor(*old(c)) is None,
    ensures
        cmd_args(*final(c)) == cmd_args(*old(c)).push(None),
        cmd_cursor(*final(c)) == Some(cursor),
{
    c.cursor_arg(cursor);
}

/// The command `name` with the plain arguments `args`, in order.
pub fn command_with_args(name: &str, args: &Vec<String>) -> (c: Cmd)
    ensures
        cmd_args(c) == command_spec(name@, views(args@)),
        cmd_cursor(c) is None,
{
    let ghost all = views(args@);
    let mut c = new_cmd(name);
    let mut i: usize = 0;
    while i < args.len()
        invariant
            i <= args@.len(),
            all == views(args@),
            cmd_args(c) == command_spec(name@, all.take(i as int)),
            cmd_cursor(c) is None,
        decreases args.len() - i,
    {
        push_arg(&mut c, args[i].as_str());
        assert(command_spec(name@, all.take(i + 1)) =~= command_spec(name@, all.take(i as int)).push(
            text_arg(args@[i as int]@),
        ));
        i = i + 1;
    }
    assert(all.take(args.len() as int) =~= all);
    c
}

/// The command that writes a record: `HSET` with the record's hash arguments.
pub fn hset_command(args: &Vec<String>) -> (c: Cmd)
    ensures
        cmd_args(c) == command_spec("HSET"@, views(args@)),
        cmd_cursor(c) is None,
{
    command_with_args("HSET", args)
}

/// The command that reads the record with key `key`: `HGETALL prefix:key`.
pub fn hgetall_command(prefix: &str, key: &str) -> (c: Cmd)
    ensures
        cmd_args(c) == command_spec("HGETALL"@, seq![hash_key_spec(prefix@, key@)]),
        cmd_cursor(c) is None,
{
    let mut c = new_cmd("HGETALL");
    let name = hash_key(prefix, key);
    push_arg(&mut c, name.as_str());
    assert(command_spec("HGETALL"@, seq![hash_key_spec(prefix@, key@)]) =~= seq![
        text_arg("HGETALL"@),
        text_arg(name@),
    ]);
    c
}

/// The command that lists the hashes of a model from the start:
/// `SCAN 0 MATCH prefix:* TYPE hash`, iterating from cursor 0.
pub fn scan_command(prefix: &str) -> (c: Cmd)
    ensures
        cmd_args(c) == scan_command_spec(prefix@),
        cmd_cursor(c) == Some(0u64),
{
    let mut c = new_cmd("SCAN");
    push_cursor(&mut c, 0);
    push_arg(&mut c, "MATCH");
    let pattern = scan_pattern(prefix);
    push_arg(&mut c, pattern.as_str());
    push_arg(&mut c, "TYPE");
    push_arg(&mut c, "hash");
    assert(cmd_args(c) =~= scan_command_spec(prefix@));
    c
}

} // verus!
