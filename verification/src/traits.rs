//! The interfaces of record types. `HashSet` is what a record type
//! implements, the derive writing it from the type's model; `HSetRedis` marks
//! a record type whose records are stored in Redis with the commands that
//! `crate::command` builds.
use crate::field_map::FieldMap;
use vstd::prelude::*;

verus! {

/// A record type stored as a Redis hash.
pub trait HashSet: Sized {
    /// The arguments of `HSET` that write the record: the name of its hash,
    /// then each stored field's name and value.
    fn gen_hset_args(&self) -> Vec<String>;

    /// The record read from the fields of its hash.
    fn get_hset_from_args(args: &FieldMap) -> Self;

    /// The text of the command that reads the record: `HGETALL` and the key.
    fn getall_command(&self) -> String;

    /// The text of the command that writes the record: `HSET` and its
    /// arguments, separated by single spaces.
    fn set_command(&self) -> String;

    /// The prefix of the names of this type's hashes.
    fn get_prefix() -> String;

    /// The name of the key field.
    fn key_name() -> String;

    /// The record's key.
    fn get_key(&self) -> &String;
}

/// A record type whose records are stored in and read from Redis.
pub trait HSetRedis: HashSet {

}

} // verus!
