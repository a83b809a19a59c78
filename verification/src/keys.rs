//! Storage-key construction: the hash key derived from a client identity and
//! the range key joined from ordered components.

use vstd::prelude::*;
use vstd::string::StringExecFns;

verus! {

/// The composite identity a conversation is keyed by; it has no behaviour of
/// its own.
#[derive(Clone, PartialEq, Eq, Debug)]
pub struct Client {
    pub bot_id: String,
    pub channel_id: String,
    pub user_id: String,
}

/// The hash key that `make_hash` returns for a client.
pub open spec fn hash_key_of(bot: Seq<char>, channel: Seq<char>, user: Seq<char>) -> Seq<char> {
    "bot_id:"@ + bot + "#channel_id:"@ + channel + "#user_id:"@ + user
}

/// Create a hash key from the client info.
pub fn make_hash(client: &Client) -> (r: String)
    ensures
        r@ == hash_key_of(client.bot_id@, client.channel_id@, client.user_id@),
{
    let mut r: String = "bot_id:".to_owned();
    r.append(client.bot_id.as_str());
    r.append("#channel_id:");
    r.append(client.channel_id.as_str());
    r.append("#user_id:");
    r.append(client.user_id.as_str());
    r
}

/// The range key built from the components of `parts` left to right: a
/// component is preceded by `#` exactly when the accumulated key is already
/// non-empty.
pub open spec fn range_key_rec(parts: Seq<Seq<char>>, acc: Seq<char>) -> Seq<char>
    decreases parts.len(),
{
    if parts.len() == 0 {
        acc
    } else if acc.len() > 0 {
        range_key_rec(parts.drop_first(), acc + "#"@ + parts[0])
    } else {
        range_key_rec(parts.drop_first(), acc + parts[0])
    }
}

/// The range key for an ordered list of components.
pub open spec fn range_key_of(parts: Seq<Seq<char>>) -> Seq<char> {
    range_key_rec(parts, Seq::<char>::empty())
}

/// Create a serialized range key from the given components.
pub fn make_range(args: &Vec<String>) -> (r: String)
    ensures
        r@ == range_key_of(args.deep_view()),
{
    let mut res: String = String::new();
    let ghost parts: Seq<Seq<char>> = args.deep_view();
    proof {
        assert(parts.subrange(0, parts.len() as int) =~= parts);
    }
    let mut k: usize = 0;
    while k < args.len()
        invariant
            0 <= k <= args.len(),
            parts == args.deep_view(),
            parts.len() == args.len(),
            range_key_rec(parts.subrange(k as int, parts.len() as int), res@) == range_key_of(
                parts,
            ),
        decreases args.len() - k,
    {
        proof {
            assert(parts.subrange(k as int, parts.len() as int).len() > 0);
            assert(parts.subrange(k as int, parts.len() as int)[0] == parts[k as int]);
            assert(parts.subrange(k as int, parts.len() as int).drop_first() == parts.subrange(
                k as int + 1,
                parts.len() as int,
            ));
            assert(args.deep_view()[k as int] == args@[k as int]@);
        }
        if !res.as_str().is_empty() {
            res.append("#");
        }
        res.append(args[k].as_str());
        k = k + 1;
    }
    proof {
        assert(parts.subrange(parts.len() as int, parts.len() as int) =~= Seq::<
            Seq<char>,
        >::empty());
    }
    res
}

} // verus!
