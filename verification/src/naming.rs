//! Naming conventions: pure maps from a declared field name to its serialized
//! key.  Declared names are taken to be snake_case words joined by `_`, the
//! usual shape of a record's field names; every convention is applied
//! uniformly to all fields of a record.

use vstd::prelude::*;

use crate::ascii::push_bytes;
use crate::ascii::to_lower;
use crate::ascii::to_lower_spec;
use crate::ascii::to_upper;
use crate::ascii::to_upper_spec;
use crate::ascii::HYPHEN;
use crate::ascii::UNDERSCORE;

verus! {

/// The recognized naming policies.
#[derive(Clone, Copy, Debug, PartialEq, Eq, Structural)]
pub enum NamingConvention {
    /// Keys are the declared names, unchanged.
    Identity,
    /// Word separators are dropped and each later word starts upper-case:
    /// `page_size` becomes `pageSize`.
    CamelCase,
    /// Letters are lowered and `_` kept: `page_size` stays `page_size`.
    SnakeCase,
    /// Letters are lowered and `_` becomes `-`: `page_size` becomes
    /// `page-size`.
    KebabCase,
    /// Word separators are dropped and every word starts upper-case:
    /// `page_size` becomes `PageSize`.
    PascalCase,
}

impl Default for NamingConvention {
    /// The default convention leaves declared names unchanged.
    fn default() -> (r: Self)
        ensures
            r == NamingConvention::Identity,
    {
        NamingConvention::Identity
    }
}

/// Joined words: `_` is dropped and the letter after it (after every one, and
/// the very first when `up` starts true) is raised.
pub open spec fn wordjoin(s: Seq<u8>, up: bool) -> Seq<u8>
    decreases s.len(),
{
    if s.len() == 0 {
        Seq::empty()
    } else if s[0] == UNDERSCORE {
        wordjoin(s.drop_first(), true)
    } else {
        seq![if up {
            to_upper_spec(s[0])
        } else {
            s[0]
        }] + wordjoin(s.drop_first(), false)
    }
}

/// Separated words: letters are lowered and `_` is replaced by `sep`.
pub open spec fn wordsep(s: Seq<u8>, sep: u8) -> Seq<u8>
    decreases s.len(),
{
    if s.len() == 0 {
        Seq::empty()
    } else {
        seq![if s[0] == UNDERSCORE {
            sep
        } else {
            to_lower_spec(s[0])
        }] + wordsep(s.drop_first(), sep)
    }
}

/// The serialized key a convention gives to a declared name.
pub open spec fn convention_key(c: NamingConvention, name: Seq<u8>) -> Seq<u8> {
    match c {
        NamingConvention::Identity => name,
        NamingConvention::CamelCase => wordjoin(name, false),
        NamingConvention::PascalCase => wordjoin(name, true),
        NamingConvention::SnakeCase => wordsep(name, UNDERSCORE),
        NamingConvention::KebabCase => wordsep(name, HYPHEN),
    }
}

/// Appends the joined-words form of `s[i..]` to `out`.
fn wordjoin_append(out: &mut Vec<u8>, s: &[u8], i: usize, up: bool)
    requires
        i <= s@.len(),
    ensures
        final(out)@ == old(out)@ + wordjoin(s@.skip(i as int), up),
    decreases s@.len() - i,
{
    if i < s.len() {
        proof {
            assert(s@.skip(i as int).drop_first() =~= s@.skip(i as int + 1));
        }
        let b = s[i];
        if b == UNDERSCORE {
            wordjoin_append(out, s, i + 1, true);
        } else {
            if up {
                out.push(to_upper(b));
            } else {
                out.push(b);
            }
            wordjoin_append(out, s, i + 1, false);
        }
    } else {
        proof {
            assert(s@.skip(i as int) =~= Seq::<u8>::empty());
            assert(out@ =~= out@ + Seq::<u8>::empty());
        }
    }
}

/// Appends the separated-words form of `s[i..]` to `out`.
fn wordsep_append(out: &mut Vec<u8>, s: &[u8], i: usize, sep: u8)
    requires
        i <= s@.len(),
    ensures
        final(out)@ == old(out)@ + wordsep(s@.skip(i as int), sep),
    decreases s@.len() - i,
{
    if i < s.len() {
        proof {
            assert(s@.skip(i as int).drop_first() =~= s@.skip(i as int + 1));
        }
        let b = s[i];
        if b == UNDERSCORE {
            out.push(sep);
        } else {
            out.push(to_lower(b));
        }
        wordsep_append(out, s, i + 1, sep);
    } else {
        proof {
            assert(s@.skip(i as int) =~= Seq::<u8>::empty());
            assert(out@ =~= out@ + Seq::<u8>::empty());
        }
    }
}

/// Appends the key the convention gives to `name` to `out`.
pub fn convention_append(out: &mut Vec<u8>, c: NamingConvention, name: &[u8])
    ensures
        final(out)@ == old(out)@ + convention_key(c, name@),
{
    proof {
        assert(name@.skip(0) =~= name@);
    }
    match c {
        NamingConvention::Identity => push_bytes(out, name, 0),
        NamingConvention::CamelCase => wordjoin_append(out, name, 0, false),
        NamingConvention::PascalCase => wordjoin_append(out, name, 0, true),
        NamingConvention::SnakeCase => wordsep_append(out, name, 0, UNDERSCORE),
        NamingConvention::KebabCase => wordsep_append(out, name, 0, HYPHEN),
    }
}

} // verus!
