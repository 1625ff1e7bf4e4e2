//! The mount options given on the command line: a comma-separated list in which a few words
//! are recognised and every other token is handed to the mount as it is.

use crate::archive::{bytes_eq, views};
use vstd::prelude::*;
use vstd::string::StringSliceAdditionalSpecFns;

verus! {

pub const COMMA: u8 = 44;

/// A mount option.
#[derive(Debug, PartialEq, Eq)]
pub enum MountOpt {
    DefaultPermissions,
    AllowOther,
    AllowRoot,
    /// Any other token, passed through verbatim.
    Custom(Vec<u8>),
}

/// The comma-separated fields of `s`; empty fields are kept, and an empty `s` has one.
pub open spec fn fields(s: Seq<u8>) -> Seq<Seq<u8>>
    decreases s.len(),
{
    if s.len() == 0 {
        seq![Seq::<u8>::empty()]
    } else {
        let f = fields(s.drop_last());
        if s.last() == COMMA {
            f.push(Seq::<u8>::empty())
        } else {
            f.update(f.len() - 1, f.last().push(s.last()))
        }
    }
}

/// The option that the token `tok` stands for.
pub open spec fn option_matches(o: MountOpt, tok: Seq<u8>) -> bool {
    let dp = "default_permissions".spec_bytes();
    let ao = "allow_other".spec_bytes();
    let ar = "allow_root".spec_bytes();
    match o {
        MountOpt::DefaultPermissions => tok == dp,
        MountOpt::AllowOther => tok == ao,
        MountOpt::AllowRoot => tok == ar,
        MountOpt::Custom(v) => v@ == tok && tok != dp && tok != ao && tok != ar,
    }
}

/// The option that one token stands for.
pub fn parse_option(tok: Vec<u8>) -> (r: MountOpt)
    ensures
        option_matches(r, tok@),
{
    if bytes_eq(tok.as_slice(), "default_permissions".as_bytes()) {
        MountOpt::DefaultPermissions
    } else if bytes_eq(tok.as_slice(), "allow_other".as_bytes()) {
        MountOpt::AllowOther
    } else if bytes_eq(tok.as_slice(), "allow_root".as_bytes()) {
        MountOpt::AllowRoot
    } else {
        MountOpt::Custom(tok)
    }
}

/// Splits `s` at each comma.
pub fn split_fields(s: &[u8]) -> (r: Vec<Vec<u8>>)
    ensures
        views(r@) == fields(s@),
{
    let mut done: Vec<Vec<u8>> = Vec::new();
    let mut cur: Vec<u8> = Vec::new();
    let mut i: usize = 0;
    while i < s.len()
        invariant
            i <= s@.len(),
            views(done@).push(cur@) == fields(s@.subrange(0, i as int)),
        decreases s@.len() - i,
    {
        let ghost pre = s@.subrange(0, i as int);
        let ghost post = s@.subrange(0, i as int + 1);
        assert(post.drop_last() =~= pre);
        let ghost before = views(done@);
        let ghost f = fields(pre);
        if s[i] == COMMA {
            let tok = cur;
            cur = Vec::new();
            done.push(tok);
            assert(views(done@) =~= before.push(tok@));
            assert(views(done@).push(cur@) =~= f.push(Seq::<u8>::empty()));
        } else {
            cur.push(s[i]);
            assert(views(done@).push(cur@) =~= f.update(f.len() - 1, f.last().push(s@[i as int])));
        }
        i = i + 1;
    }
    assert(s@.subrange(0, s@.len() as int) =~= s@);
    let ghost before = views(done@);
    done.push(cur);
    assert(views(done@) =~= before.push(done@.last()@));
    done
}

/// Parses a comma-separated list of mount options, one option for each field.
pub fn parse_mount_options(s: &[u8]) -> (r: Vec<MountOpt>)
    ensures
        r@.len() == fields(s@).len(),
        forall|i: int| 0 <= i < r@.len() ==> option_matches(#[trigger] r@[i], fields(s@)[i]),
{
    let toks = split_fields(s);
    let mut r: Vec<MountOpt> = Vec::new();
    let mut i: usize = 0;
    while i < toks.len()
        invariant
            i <= toks@.len(),
            views(toks@) == fields(s@),
            r@.len() == i,
            forall|j: int| 0 <= j < i ==> option_matches(#[trigger] r@[j], fields(s@)[j]),
        decreases toks@.len() - i,
    {
        let tok = crate::path::copy_range(toks[i].as_slice(), 0, toks[i].len());
        assert(tok@ =~= toks@[i as int]@);
        assert(views(toks@)[i as int] == toks@[i as int]@);
        let ghost before = r@;
        let o = parse_option(tok);
        r.push(o);
        assert forall|j: int| 0 <= j < i + 1 implies option_matches(#[trigger] r@[j], fields(s@)[j]) by {
            if j < i {
                assert(r@[j] == before[j]);
            }
        }
        i = i + 1;
    }
    r
}

} // verus!
