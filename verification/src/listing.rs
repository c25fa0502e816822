//! The list of game paths that the host announces to a title installer.

use vstd::prelude::*;
use vstd::utf8::encode_utf8;

use crate::codec::push_bytes;

verus! {

/// The UTF-8 bytes of each path, each followed by a newline, one after another.
pub open spec fn listing(paths: Seq<Seq<char>>) -> Seq<u8>
    decreases paths.len(),
{
    if paths.len() == 0 {
        Seq::empty()
    } else {
        listing(paths.drop_last()) + encode_utf8(paths.last()) + seq![10u8]
    }
}

/// What one path adds to the announced length: its byte length, as a `u32`,
/// plus one for the newline.
pub open spec fn announced_len_term(path: Seq<char>) -> nat {
    (encode_utf8(path).len() % 0x1_0000_0000) + 1
}

/// The sum of the announced length terms of all paths.
pub open spec fn announced_len(paths: Seq<Seq<char>>) -> nat
    decreases paths.len(),
{
    if paths.len() == 0 {
        0
    } else {
        announced_len(paths.drop_last()) + announced_len_term(paths.last())
    }
}

proof fn lemma_announced_len_monotone(paths: Seq<Seq<char>>, i: int)
    requires
        0 <= i <= paths.len(),
    ensures
        announced_len(paths.take(i)) <= announced_len(paths),
    decreases paths.len() - i,
{
    if i < paths.len() {
        lemma_announced_len_monotone(paths, i + 1);
        assert(paths.take(i + 1).drop_last() =~= paths.take(i));
    } else {
        assert(paths.take(i) =~= paths);
    }
}

/// The bytes announcing `game_paths`: each path followed by a newline.
pub fn paths_listing(game_paths: &Vec<String>) -> (out: Vec<u8>)
    ensures
        out@ == listing(game_paths.deep_view()),
{
    let mut out: Vec<u8> = Vec::new();
    let mut i: usize = 0;
    while i < game_paths.len()
        invariant
            i <= game_paths@.len(),
            out@ == listing(game_paths.deep_view().take(i as int)),
        decreases game_paths@.len() - i,
    {
        let ghost before = game_paths.deep_view().take(i as int);
        push_bytes(&mut out, game_paths[i].as_str().as_bytes());
        out.push(10u8);
        proof {
            let after = game_paths.deep_view().take(i + 1);
            assert(after.drop_last() =~= before);
            assert(after.last() == game_paths@[i as int]@);
        }
        i = i + 1;
    }
    assert(game_paths.deep_view().take(game_paths@.len() as int) =~= game_paths.deep_view());
    out
}

/// The length that the host announces before the list of paths: the sum, over
/// the paths, of the byte length (as a `u32`) plus one. `None` when the sum does
/// not fit in a `u32`.
pub fn paths_with_newlines_length(game_paths: &Vec<String>) -> (len: Option<u32>)
    ensures
        len matches Some(n) ==> n == announced_len(game_paths.deep_view()),
        len is None <==> announced_len(game_paths.deep_view()) > u32::MAX,
{
    let ghost paths = game_paths.deep_view();
    let mut total: u32 = 0;
    let mut i: usize = 0;
    while i < game_paths.len()
        invariant
            i <= game_paths@.len(),
            paths == game_paths.deep_view(),
            total == announced_len(paths.take(i as int)),
        decreases game_paths@.len() - i,
    {
        let byte_len = game_paths[i].as_str().as_bytes().len();
        let term_u64: u64 = (byte_len as u64 % 0x1_0000_0000) + 1;
        proof {
            assert(paths.take(i + 1).drop_last() =~= paths.take(i as int));
            assert(paths.take(i + 1).last() == game_paths@[i as int]@);
        }
        if total as u64 + term_u64 > u32::MAX as u64 {
            proof {
                lemma_announced_len_monotone(paths, i + 1);
            }
            return None;
        }
        total = total + term_u64 as u32;
        i = i + 1;
    }
    assert(paths.take(game_paths@.len() as int) =~= paths);
    Some(total)
}

/// The announced length is the number of bytes in the listing.
pub proof fn lemma_announced_len_is_listing_len(paths: Seq<Seq<char>>)
    requires
        announced_len(paths) <= u32::MAX,
        forall|i: int| 0 <= i < paths.len() ==> encode_utf8(#[trigger] paths[i]).len() < 0x1_0000_0000,
    ensures
        announced_len(paths) == listing(paths).len(),
    decreases paths.len(),
{
    if paths.len() > 0 {
        let init = paths.drop_last();
        assert forall|i: int| 0 <= i < init.len() implies encode_utf8(#[trigger] init[i]).len()
            < 0x1_0000_0000 by {
            assert(init[i] == paths[i]);
        }
        assert(encode_utf8(paths[paths.len() - 1]).len() < 0x1_0000_0000);
        lemma_announced_len_is_listing_len(init);
    }
}


/// The listing, path by path: nothing for no paths, and one more path adds its
/// UTF-8 bytes and a newline at the end.
pub proof fn lemma_listing_steps(paths: Seq<Seq<char>>, path: Seq<char>)
    ensures
        listing(Seq::<Seq<char>>::empty()) == Seq::<u8>::empty(),
        listing(paths.push(path)) == listing(paths) + encode_utf8(path) + seq![10u8],
{
    assert(paths.push(path).drop_last() =~= paths);
}

} // verus!
