//! Picking the negotiated parameters out of a request's options.
use vstd::prelude::*;

use crate::message::{option_valid, options_valid, TftpOption};

verus! {

/// Block size used when the client asks for none.
pub const BLOCK_SIZE: usize = 512;

/// Wait for an acknowledgement, in milliseconds, when the client asks for none.
pub const DEFAULT_TIMEOUT: u64 = 3000;

/// The first block size among the options.
pub open spec fn first_block_size(os: Seq<TftpOption>) -> Option<u16>
    decreases os.len(),
{
    if os.len() == 0 {
        None
    } else {
        match os[0] {
            TftpOption::BlockSize(v) => Some(v),
            _ => first_block_size(os.drop_first()),
        }
    }
}

/// The first timeout, in seconds, among the options.
pub open spec fn first_timeout(os: Seq<TftpOption>) -> Option<u8>
    decreases os.len(),
{
    if os.len() == 0 {
        None
    } else {
        match os[0] {
            TftpOption::Timeout(v) => Some(v),
            _ => first_timeout(os.drop_first()),
        }
    }
}

/// The first transfer size among the options.
pub open spec fn first_transfer_size(os: Seq<TftpOption>) -> Option<u64>
    decreases os.len(),
{
    if os.len() == 0 {
        None
    } else {
        match os[0] {
            TftpOption::TransferSize(v) => Some(v),
            _ => first_transfer_size(os.drop_first()),
        }
    }
}

/// The block size that the options settle on.
pub open spec fn block_size_of(os: Seq<TftpOption>) -> nat {
    match first_block_size(os) {
        Some(v) => v as nat,
        None => BLOCK_SIZE as nat,
    }
}

/// The wait for an acknowledgement, in milliseconds, that the options settle on.
pub open spec fn timeout_ms_of(os: Seq<TftpOption>) -> nat {
    match first_timeout(os) {
        Some(v) => v as nat * 1000,
        None => DEFAULT_TIMEOUT as nat,
    }
}

/// A block size among valid options is a valid one.
pub proof fn lemma_block_size_valid(os: Seq<TftpOption>)
    requires
        options_valid(os),
    ensures
        8 <= block_size_of(os) <= 65464,
    decreases os.len(),
{
    if os.len() > 0 {
        assert(option_valid(os[0]));
        assert(options_valid(os.drop_first())) by {
            assert forall|i: int| 0 <= i < os.drop_first().len() implies option_valid(
                #[trigger] os.drop_first()[i],
            ) by {
                assert(os.drop_first()[i] == os[i + 1]);
            }
        }
        lemma_block_size_valid(os.drop_first());
    }
}

/// The block size asked for, or the default one.
pub fn get_block_size(options: &[TftpOption]) -> (r: usize)
    ensures
        r == block_size_of(options@),
{
    let mut i: usize = 0;
    assert(options@.subrange(0, options@.len() as int) =~= options@);
    while i < options.len()
        invariant
            i <= options.len(),
            first_block_size(options@) == first_block_size(
                options@.subrange(i as int, options@.len() as int),
            ),
        decreases options.len() - i,
    {
        let ghost tail = options@.subrange(i as int, options@.len() as int);
        assert(tail.drop_first() =~= options@.subrange(i + 1, options@.len() as int));
        match options[i] {
            TftpOption::BlockSize(bls) => {
                return bls as usize;
            },
            _ => {},
        }
        i = i + 1;
    }
    assert(options@.subrange(i as int, options@.len() as int) =~= Seq::<TftpOption>::empty());
    BLOCK_SIZE
}

/// The wait for an acknowledgement asked for, in milliseconds, or the
/// default one.
pub fn get_timeout(options: &[TftpOption]) -> (r: u64)
    ensures
        r == timeout_ms_of(options@),
{
    let mut i: usize = 0;
    assert(options@.subrange(0, options@.len() as int) =~= options@);
    while i < options.len()
        invariant
            i <= options.len(),
            first_timeout(options@) == first_timeout(
                options@.subrange(i as int, options@.len() as int),
            ),
        decreases options.len() - i,
    {
        let ghost tail = options@.subrange(i as int, options@.len() as int);
        assert(tail.drop_first() =~= options@.subrange(i + 1, options@.len() as int));
        match options[i] {
            TftpOption::Timeout(tout) => {
                return tout as u64 * 1000;
            },
            _ => {},
        }
        i = i + 1;
    }
    assert(options@.subrange(i as int, options@.len() as int) =~= Seq::<TftpOption>::empty());
    DEFAULT_TIMEOUT
}

/// The transfer size that the client declared, if any.
pub fn get_transfer_size(options: &[TftpOption]) -> (r: Option<u64>)
    ensures
        r == first_transfer_size(options@),
{
    let mut i: usize = 0;
    assert(options@.subrange(0, options@.len() as int) =~= options@);
    while i < options.len()
        invariant
            i <= options.len(),
            first_transfer_size(options@) == first_transfer_size(
                options@.subrange(i as int, options@.len() as int),
            ),
        decreases options.len() - i,
    {
        let ghost tail = options@.subrange(i as int, options@.len() as int);
        assert(tail.drop_first() =~= options@.subrange(i + 1, options@.len() as int));
        match options[i] {
            TftpOption::TransferSize(tsize) => {
                return Some(tsize);
            },
            _ => {},
        }
        i = i + 1;
    }
    assert(options@.subrange(i as int, options@.len() as int) =~= Seq::<TftpOption>::empty());
    None
}

} // verus!
