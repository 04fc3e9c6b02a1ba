//! Deterministic pool addressing and the registry of deployed pools.
//!
//! Every pool's deployment identity is `sha256(group_salt ++ sub_salt)`:
//! the group salt hashes the canonically sorted token list, the sub-salt
//! hashes the pool variant (a standard pool's fee tier, or a stableswap
//! pool's strictly increasing counter so several can coexist per group).
//! Equal inputs therefore always give the same address, and deploying the
//! same standard fee tier twice fails; the registry records every entry
//! for later enumeration.

use vstd::prelude::*;

use crate::errors::PoolError;
use crate::hashing::{sha256_digest, sha256_of};
use crate::pool::{canonical_order, sort_ids, vec_copy_ids, Pool, FEE_DENOMINATOR};

verus! {

/// Tag byte of a standard (constant-product) pool's sub-salt preimage.
pub const STANDARD_POOL_TAG: u8 = 1;

/// Tag byte of a stableswap pool's sub-salt preimage.
pub const STABLESWAP_POOL_TAG: u8 = 2;

/// Big-endian bytes of a `u32`.
pub open spec fn u32_be(v: u32) -> Seq<u8> {
    seq![(v >> 24) as u8, (v >> 16) as u8, (v >> 8) as u8, v as u8]
}

/// Big-endian bytes of a `u64`.
pub open spec fn u64_be(v: u64) -> Seq<u8> {
    seq![
        (v >> 56) as u8,
        (v >> 48) as u8,
        (v >> 40) as u8,
        (v >> 32) as u8,
        (v >> 24) as u8,
        (v >> 16) as u8,
        (v >> 8) as u8,
        v as u8,
    ]
}

/// Big-endian bytes of a `u128`.
pub open spec fn u128_be(v: u128) -> Seq<u8> {
    u64_be((v >> 64) as u64) + u64_be(v as u64)
}

/// Preimage of a standard pool's sub-salt: its tag and fee tier.
pub open spec fn standard_salt_preimage(fee_fraction: u32) -> Seq<u8> {
    seq![STANDARD_POOL_TAG] + seq![0u8] + u32_be(fee_fraction) + seq![0u8]
}

/// Preimage of a stableswap pool's sub-salt: its tag and counter value.
pub open spec fn stableswap_salt_preimage(counter: u128) -> Seq<u8> {
    seq![STABLESWAP_POOL_TAG] + seq![0u8] + u128_be(counter) + seq![0u8]
}

/// Stable serialization of a token list, one terminated field per token.
pub open spec fn tokens_preimage(tokens: Seq<u64>) -> Seq<u8>
    decreases tokens.len(),
{
    if tokens.len() == 0 {
        Seq::<u8>::empty()
    } else {
        tokens_preimage(tokens.drop_last()) + u64_be(tokens.last()) + seq![0u8]
    }
}

/// Stable serialization of opaque initialization arguments: every field
/// carries a fixed-width length prefix, so the serialization is
/// injective even over arguments that contain any byte value, and
/// differently split argument lists never share a preimage.
pub open spec fn args_preimage(args: Seq<Seq<u8>>) -> Seq<u8>
    decreases args.len(),
{
    if args.len() == 0 {
        Seq::<u8>::empty()
    } else {
        args_preimage(args.drop_last()) + u64_be(args.last().len() as u64) + args.last()
    }
}

/// Preimage of a custom pool type's sub-salt: the length-prefixed type
/// name followed by each length-prefixed initialization argument.
pub open spec fn custom_salt_preimage(pool_type: Seq<u8>, args: Seq<Seq<u8>>) -> Seq<u8> {
    u64_be(pool_type.len() as u64) + pool_type + args_preimage(args)
}

fn push_u32_be(out: &mut Vec<u8>, v: u32)
    ensures
        final(out)@ == old(out)@ + u32_be(v),
{
    out.push((v >> 24) as u8);
    out.push((v >> 16) as u8);
    out.push((v >> 8) as u8);
    out.push(v as u8);
    proof {
        assert(out@ =~= old(out)@ + u32_be(v));
    }
}

fn push_u64_be(out: &mut Vec<u8>, v: u64)
    ensures
        final(out)@ == old(out)@ + u64_be(v),
{
    out.push((v >> 56) as u8);
    out.push((v >> 48) as u8);
    out.push((v >> 40) as u8);
    out.push((v >> 32) as u8);
    out.push((v >> 24) as u8);
    out.push((v >> 16) as u8);
    out.push((v >> 8) as u8);
    out.push(v as u8);
    proof {
        assert(out@ =~= old(out)@ + u64_be(v));
    }
}

fn push_u128_be(out: &mut Vec<u8>, v: u128)
    ensures
        final(out)@ == old(out)@ + u128_be(v),
{
    push_u64_be(out, (v >> 64) as u64);
    push_u64_be(out, v as u64);
    proof {
        assert(out@ =~= old(out)@ + u128_be(v));
    }
}

fn push_bytes(out: &mut Vec<u8>, v: &Vec<u8>)
    ensures
        final(out)@ == old(out)@ + v@,
{
    let n = v.len();
    let mut i: usize = 0;
    proof {
        assert(out@ =~= old(out)@ + v@.take(0));
    }
    while i < n
        invariant
            n == v@.len(),
            i <= n,
            out@ == old(out)@ + v@.take(i as int),
        decreases n - i,
    {
        out.push(v[i]);
        proof {
            assert(out@ =~= old(out)@ + v@.take(i + 1 as int));
        }
        i += 1;
    }
    proof {
        assert(v@.take(n as int) =~= v@);
    }
}

/// Copies a byte string.
pub fn vec_copy_bytes(v: &Vec<u8>) -> (r: Vec<u8>)
    ensures
        r@ == v@,
{
    let mut r: Vec<u8> = Vec::new();
    push_bytes(&mut r, v);
    proof {
        assert(r@ =~= v@);
    }
    r
}

/// Sub-salt of a standard pool: the hash of its tag and fee tier, so one
/// fee tier has one address per token group.
pub fn get_standard_pool_salt(e: &soroban_sdk::Env, fee_fraction: u32) -> (r: Vec<u8>)
    ensures
        r@ == sha256_of(standard_salt_preimage(fee_fraction)),
        r@.len() == 32,
{
    let mut buf: Vec<u8> = Vec::new();
    buf.push(STANDARD_POOL_TAG);
    buf.push(0u8);
    push_u32_be(&mut buf, fee_fraction);
    buf.push(0u8);
    proof {
        assert(buf@ =~= standard_salt_preimage(fee_fraction));
    }
    sha256_digest(e, &buf)
}

/// Sub-salt of a stableswap pool: the hash of its tag and a counter
/// value, so repeated deployments get fresh addresses.
pub fn get_stableswap_pool_salt(e: &soroban_sdk::Env, counter: u128) -> (r: Vec<u8>)
    ensures
        r@ == sha256_of(stableswap_salt_preimage(counter)),
        r@.len() == 32,
{
    let mut buf: Vec<u8> = Vec::new();
    buf.push(STABLESWAP_POOL_TAG);
    buf.push(0u8);
    push_u128_be(&mut buf, counter);
    buf.push(0u8);
    proof {
        assert(buf@ =~= stableswap_salt_preimage(counter));
    }
    sha256_digest(e, &buf)
}

/// Sub-salt of a caller-described pool type over opaque serialized
/// arguments.
pub fn get_custom_salt(e: &soroban_sdk::Env, pool_type: &Vec<u8>, init_args: &Vec<Vec<u8>>) -> (r:
    Vec<u8>)
    ensures
        r@ == sha256_of(custom_salt_preimage(pool_type@, init_args.deep_view())),
        r@.len() == 32,
{
    let mut buf: Vec<u8> = Vec::new();
    push_u64_be(&mut buf, pool_type.len() as u64);
    push_bytes(&mut buf, pool_type);
    let ghost prefix = u64_be(pool_type@.len() as u64) + pool_type@;
    let n = init_args.len();
    let mut i: usize = 0;
    proof {
        assert(init_args.deep_view().take(0) =~= Seq::<Seq<u8>>::empty());
        assert(buf@ =~= prefix + args_preimage(init_args.deep_view().take(0)));
    }
    while i < n
        invariant
            n == init_args@.len(),
            init_args.deep_view().len() == n,
            i <= n,
            prefix == u64_be(pool_type@.len() as u64) + pool_type@,
            forall|q: int| 0 <= q < n ==> init_args.deep_view()[q] == #[trigger] init_args@[q]@,
            buf@ == prefix + args_preimage(init_args.deep_view().take(i as int)),
        decreases n - i,
    {
        push_u64_be(&mut buf, init_args[i].len() as u64);
        push_bytes(&mut buf, &init_args[i]);
        proof {
            let dv = init_args.deep_view();
            assert(dv.take(i + 1 as int).drop_last() =~= dv.take(i as int));
            assert(dv.take(i + 1 as int).last() == init_args@[i as int]@);
            assert(buf@ =~= prefix + args_preimage(dv.take(i + 1 as int)));
        }
        i += 1;
    }
    proof {
        assert(init_args.deep_view().take(n as int) =~= init_args.deep_view());
    }
    sha256_digest(e, &buf)
}

/// The group salt of a token set: the hash of the canonically sorted
/// identifier list, the same whatever order the caller supplies.
pub fn pool_salt(e: &soroban_sdk::Env, tokens: &Vec<u64>) -> (r: Vec<u8>)
    ensures
        r@ == sha256_of(tokens_preimage(canonical_order(tokens@))),
        r@.len() == 32,
{
    let sorted = sort_ids(tokens);
    let n = sorted.len();
    let mut buf: Vec<u8> = Vec::new();
    let mut i: usize = 0;
    proof {
        assert(sorted@.take(0) =~= Seq::<u64>::empty());
        assert(buf@ =~= tokens_preimage(sorted@.take(0)));
    }
    while i < n
        invariant
            n == sorted@.len(),
            i <= n,
            buf@ == tokens_preimage(sorted@.take(i as int)),
        decreases n - i,
    {
        push_u64_be(&mut buf, sorted[i]);
        buf.push(0u8);
        proof {
            assert(sorted@.take(i + 1 as int).drop_last() =~= sorted@.take(i as int));
            assert(buf@ =~= tokens_preimage(sorted@.take(i + 1 as int)));
        }
        i += 1;
    }
    proof {
        assert(sorted@.take(n as int) =~= sorted@);
    }
    sha256_digest(e, &buf)
}

/// The deployment identity: the hash of group salt and sub-salt.
pub fn merge_salt(e: &soroban_sdk::Env, left: &Vec<u8>, right: &Vec<u8>) -> (r: Vec<u8>)
    ensures
        r@ == sha256_of(left@ + right@),
        r@.len() == 32,
{
    let mut buf: Vec<u8> = Vec::new();
    push_bytes(&mut buf, left);
    push_bytes(&mut buf, right);
    proof {
        assert(buf@ =~= left@ + right@);
    }
    sha256_digest(e, &buf)
}

/// The kind of pool a registry entry points at.
#[derive(Clone, Copy, Debug, PartialEq, Eq, Structural)]
pub enum PoolKind {
    ConstantProduct,
    StableSwap,
}

/// One deployed pool: its group identity, variant identity, kind and
/// derived address; never mutated after deployment.
pub struct RegistryEntry {
    pub group_salt: Vec<u8>,
    pub sub_salt: Vec<u8>,
    pub kind: PoolKind,
    pub address: Vec<u8>,
}

/// The registry of deployed pools and the stableswap deployment counter.
pub struct Registry {
    pub entries: Vec<RegistryEntry>,
    pub stable_swap_counter: u128,
}

/// The deterministic address a standard pool of this token set and fee
/// tier deploys at.
pub open spec fn standard_pool_address(tokens: Seq<u64>, fee_fraction: u32) -> Seq<u8> {
    sha256_of(
        sha256_of(tokens_preimage(canonical_order(tokens))) + sha256_of(
            standard_salt_preimage(fee_fraction),
        ),
    )
}

/// The deterministic address a stableswap pool of this token set deploys
/// at, for one value of the counter.
pub open spec fn stableswap_pool_address(tokens: Seq<u64>, counter: u128) -> Seq<u8> {
    sha256_of(
        sha256_of(tokens_preimage(canonical_order(tokens))) + sha256_of(
            stableswap_salt_preimage(counter),
        ),
    )
}

/// Whether some entry already occupies `addr`.
pub open spec fn has_address(reg: Registry, addr: Seq<u8>) -> bool {
    exists|i: int| 0 <= i < reg.entries@.len() && (#[trigger] reg.entries@[i]).address@ == addr
}

fn bytes_eq(a: &Vec<u8>, b: &Vec<u8>) -> (r: bool)
    ensures
        r <==> a@ == b@,
{
    let n = a.len();
    if b.len() != n {
        proof {
            assert(a@.len() != b@.len());
        }
        return false;
    }
    let mut i: usize = 0;
    while i < n
        invariant
            n == a@.len(),
            n == b@.len(),
            i <= n,
            forall|q: int| 0 <= q < i ==> a@[q] == b@[q],
        decreases n - i,
    {
        if a[i] != b[i] {
            return false;
        }
        i += 1;
    }
    proof {
        assert(a@ =~= b@);
    }
    true
}

/// The addresses recorded for one group identity, in deployment order.
pub open spec fn group_addresses(entries: Seq<RegistryEntry>, g: Seq<u8>) -> Seq<Seq<u8>>
    decreases entries.len(),
{
    if entries.len() == 0 {
        Seq::<Seq<u8>>::empty()
    } else {
        let prefix = group_addresses(entries.drop_last(), g);
        if entries.last().group_salt@ == g {
            prefix.push(entries.last().address@)
        } else {
            prefix
        }
    }
}

impl Registry {
    /// An empty registry.
    pub fn new() -> (r: Registry)
        ensures
            r.entries@.len() == 0,
            r.stable_swap_counter == 0,
    {
        Registry { entries: Vec::new(), stable_swap_counter: 0 }
    }

    /// Whether some entry already occupies `addr`.
    pub fn contains_address(&self, addr: &Vec<u8>) -> (r: bool)
        ensures
            r == has_address(*self, addr@),
    {
        let n = self.entries.len();
        let mut i: usize = 0;
        while i < n
            invariant
                n == self.entries@.len(),
                i <= n,
                forall|q: int| 0 <= q < i ==> (#[trigger] self.entries@[q]).address@ != addr@,
            decreases n - i,
        {
            if bytes_eq(&self.entries[i].address, addr) {
                return true;
            }
            i += 1;
        }
        false
    }

    /// Enumerates the deployed pools of one token group: the addresses
    /// recorded under `group_salt`, in deployment order.
    pub fn get_pools(&self, group_salt: &Vec<u8>) -> (r: Vec<Vec<u8>>)
        ensures
            r.deep_view() == group_addresses(self.entries@, group_salt@),
    {
        let n = self.entries.len();
        let mut out: Vec<Vec<u8>> = Vec::new();
        let mut i: usize = 0;
        proof {
            assert(self.entries@.take(0) =~= Seq::<RegistryEntry>::empty());
            assert(out.deep_view() =~~= group_addresses(self.entries@.take(0), group_salt@));
        }
        while i < n
            invariant
                n == self.entries@.len(),
                i <= n,
                out.deep_view() == group_addresses(self.entries@.take(i as int), group_salt@),
            decreases n - i,
        {
            let ghost dv0 = out.deep_view();
            if bytes_eq(&self.entries[i].group_salt, group_salt) {
                out.push(vec_copy_bytes(&self.entries[i].address));
                proof {
                    assert(out.deep_view() =~~= dv0.push(self.entries@[i as int].address@));
                }
            }
            proof {
                assert(self.entries@.take(i + 1 as int).drop_last() =~= self.entries@.take(
                    i as int,
                ));
                assert(self.entries@.take(i + 1 as int).last() == self.entries@[i as int]);
                assert(out.deep_view() =~~= group_addresses(
                    self.entries@.take(i + 1 as int),
                    group_salt@,
                ));
            }
            i += 1;
        }
        proof {
            assert(self.entries@.take(n as int) =~= self.entries@);
        }
        out
    }
}

/// Deploys a standard (constant-product) pool for a token set and fee
/// tier: derives the content address, fails if it is already occupied,
/// otherwise records the entry and returns the initialized pool with its
/// sub-salt and address.
#[verifier::loop_isolation(false)]
pub fn deploy_standard_pool(
    reg: &mut Registry,
    e: &soroban_sdk::Env,
    admin: u64,
    tokens: Vec<u64>,
    fee_fraction: u32,
) -> (r: Result<(Vec<u8>, Vec<u8>, Pool), PoolError>)
    ensures
        r is Err ==> *final(reg) == *old(reg),
        !(tokens@.len() >= 2 && tokens@.no_duplicates() && fee_fraction < FEE_DENOMINATOR) ==> r
            == Err::<(Vec<u8>, Vec<u8>, Pool), PoolError>(PoolError::InvalidArgument),
        tokens@.len() >= 2 && tokens@.no_duplicates() && fee_fraction < FEE_DENOMINATOR
            && has_address(*old(reg), standard_pool_address(tokens@, fee_fraction)) ==> r == Err::<
            (Vec<u8>, Vec<u8>, Pool),
            PoolError,
        >(PoolError::AlreadyExists),
        tokens@.len() >= 2 && tokens@.no_duplicates() && fee_fraction < FEE_DENOMINATOR
            && !has_address(*old(reg), standard_pool_address(tokens@, fee_fraction)) ==> {
            &&& r is Ok
            &&& r matches Ok(v) ==> {
                &&& v.0@ == sha256_of(standard_salt_preimage(fee_fraction))
                &&& v.1@ == standard_pool_address(tokens@, fee_fraction)
                &&& v.2.wf()
                &&& v.2.tokens@ == canonical_order(tokens@)
                &&& v.2.total_shares == 0
                &&& v.2.fee_fraction == fee_fraction
                &&& v.2.rewards.admin == admin
                &&& final(reg).entries@.len() == old(reg).entries@.len() + 1
                &&& final(reg).entries@.last().address@ == standard_pool_address(
                    tokens@,
                    fee_fraction,
                )
                &&& final(reg).entries@.last().kind == PoolKind::ConstantProduct
                &&& final(reg).entries@.last().group_salt@ == sha256_of(
                    tokens_preimage(canonical_order(tokens@)),
                )
                &&& final(reg).entries@.last().sub_salt@ == sha256_of(
                    standard_salt_preimage(fee_fraction),
                )
                &&& forall|q: int|
                    0 <= q < old(reg).entries@.len() ==> final(reg).entries@[q] == old(
                        reg,
                    ).entries@[q]
                &&& final(reg).stable_swap_counter == old(reg).stable_swap_counter
            }
        },
{
    let pool = match Pool::initialize(admin, vec_copy_ids(&tokens), fee_fraction) {
        Ok(p) => p,
        Err(er) => {
            return Err(er);
        },
    };
    let group = pool_salt(e, &tokens);
    let sub = get_standard_pool_salt(e, fee_fraction);
    let address = merge_salt(e, &group, &sub);
    if reg.contains_address(&address) {
        return Err(PoolError::AlreadyExists);
    }
    let entry = RegistryEntry {
        group_salt: group,
        sub_salt: vec_copy_bytes(&sub),
        kind: PoolKind::ConstantProduct,
        address: vec_copy_bytes(&address),
    };
    reg.entries.push(entry);
    Ok((sub, address, pool))
}

/// Deploys a stableswap pool for a token set: takes the next counter
/// value for the sub-salt so every deployment gets a fresh address,
/// records the entry, and returns the sub-salt and address. The engine
/// solving the stableswap invariant lives in the deployed code, not in
/// the registry; `_a` and `_admin_fee` are passed through to it.
#[verifier::loop_isolation(false)]
pub fn deploy_stableswap_pool(
    reg: &mut Registry,
    e: &soroban_sdk::Env,
    admin: u64,
    tokens: Vec<u64>,
    _a: u128,
    fee_fraction: u32,
    _admin_fee: u32,
) -> (r: Result<(Vec<u8>, Vec<u8>), PoolError>)
    ensures
        r is Err ==> *final(reg) == *old(reg),
        !(tokens@.len() >= 2 && tokens@.no_duplicates() && fee_fraction < FEE_DENOMINATOR) ==> r
            == Err::<(Vec<u8>, Vec<u8>), PoolError>(PoolError::InvalidArgument),
        tokens@.len() >= 2 && tokens@.no_duplicates() && fee_fraction < FEE_DENOMINATOR && old(
            reg,
        ).stable_swap_counter == u128::MAX ==> r == Err::<(Vec<u8>, Vec<u8>), PoolError>(
            PoolError::ArithmeticOverflow,
        ),
        tokens@.len() >= 2 && tokens@.no_duplicates() && fee_fraction < FEE_DENOMINATOR && old(
            reg,
        ).stable_swap_counter < u128::MAX && has_address(
            *old(reg),
            stableswap_pool_address(tokens@, old(reg).stable_swap_counter),
        ) ==> r == Err::<(Vec<u8>, Vec<u8>), PoolError>(PoolError::AlreadyExists),
        tokens@.len() >= 2 && tokens@.no_duplicates() && fee_fraction < FEE_DENOMINATOR && old(
            reg,
        ).stable_swap_counter < u128::MAX && !has_address(
            *old(reg),
            stableswap_pool_address(tokens@, old(reg).stable_swap_counter),
        ) ==> {
            &&& r is Ok
            &&& r matches Ok(v) ==> {
                &&& v.0@ == sha256_of(stableswap_salt_preimage(old(reg).stable_swap_counter))
                &&& v.1@ == stableswap_pool_address(tokens@, old(reg).stable_swap_counter)
                &&& final(reg).entries@.len() == old(reg).entries@.len() + 1
                &&& final(reg).entries@.last().address@ == stableswap_pool_address(
                    tokens@,
                    old(reg).stable_swap_counter,
                )
                &&& final(reg).entries@.last().kind == PoolKind::StableSwap
                &&& final(reg).entries@.last().group_salt@ == sha256_of(
                    tokens_preimage(canonical_order(tokens@)),
                )
                &&& final(reg).entries@.last().sub_salt@ == sha256_of(
                    stableswap_salt_preimage(old(reg).stable_swap_counter),
                )
                &&& forall|q: int|
                    0 <= q < old(reg).entries@.len() ==> final(reg).entries@[q] == old(
                        reg,
                    ).entries@[q]
                &&& final(reg).stable_swap_counter == old(reg).stable_swap_counter + 1
            }
        },
{
    match Pool::initialize(admin, vec_copy_ids(&tokens), fee_fraction) {
        Ok(_) => {},
        Err(er) => {
            return Err(er);
        },
    }
    let c = reg.stable_swap_counter;
    let next = match c.checked_add(1) {
        Some(v) => v,
        None => {
            return Err(PoolError::ArithmeticOverflow);
        },
    };
    let group = pool_salt(e, &tokens);
    let sub = get_stableswap_pool_salt(e, c);
    let address = merge_salt(e, &group, &sub);
    if reg.contains_address(&address) {
        return Err(PoolError::AlreadyExists);
    }
    let entry = RegistryEntry {
        group_salt: group,
        sub_salt: vec_copy_bytes(&sub),
        kind: PoolKind::StableSwap,
        address: vec_copy_bytes(&address),
    };
    reg.entries.push(entry);
    reg.stable_swap_counter = next;
    Ok((sub, address))
}

} // verus!
