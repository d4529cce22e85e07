use vstd::prelude::*;
use anchor_lang::prelude::Pubkey;
use crate::error::AmmErrorCode;

verus! {

/// The program-derived address, with its bump seed, that the address
/// derivation finds for `seeds` under `program_id`; `None` when it finds none.
pub uninterp spec fn program_address(seeds: Seq<Seq<u8>>, program_id: [u8; 32]) -> Option<([u8; 32], u8)>;

/// Relies on `Pubkey::try_find_program_address`: it searches the bump seeds
/// from 255 down for an address off the curve, so its answer depends on the
/// seeds and the program id alone.
#[verifier::external_body]
fn find_program_address(seeds: &Vec<Vec<u8>>, program_id: &[u8; 32]) -> (r: Option<([u8; 32], u8)>)
    ensures
        r == program_address(seeds_view(seeds@), *program_id),
{
    let seeds: Vec<&[u8]> = seeds.iter().map(|s| s.as_slice()).collect();
    Pubkey::try_find_program_address(&seeds, &Pubkey::new_from_array(*program_id))
        .map(|(address, bump)| (address.to_bytes(), bump))
}

pub open spec fn seeds_view(seeds: Seq<Vec<u8>>) -> Seq<Seq<u8>> {
    seeds.map_values(|s: Vec<u8>| s@)
}

/// The seed that tags a pool's own address: `b"pool"`.
pub open spec fn pool_tag() -> Seq<u8> {
    seq![112u8, 111u8, 111u8, 108u8]
}

/// The seed that tags a pool's LP share mint: `b"lp"`.
pub open spec fn lp_tag() -> Seq<u8> {
    seq![108u8, 112u8]
}

/// The programs a pool's addresses are derived under.
#[derive(Debug, Clone, Copy, PartialEq, Eq)]
pub struct ProgramIds {
    /// This market maker's program.
    pub amm: [u8; 32],
    /// The associated-token-account program, which owns the reserve addresses.
    pub associated_token: [u8; 32],
    /// The token program of asset A.
    pub token_a: [u8; 32],
    /// The token program of asset B.
    pub token_b: [u8; 32],
}

/// The record of a trading pair. Its assets, share type, fee and authority
/// never change once it is written.
#[derive(Debug, Clone, Copy, PartialEq, Eq)]
pub struct Pool {
    pub asset_a: [u8; 32],
    pub asset_b: [u8; 32],
    /// The mint of the pool's LP shares.
    pub lp_share_id: [u8; 32],
    pub fee_bps: u16,
    /// The account that holds the pool's balance of asset A.
    pub reserve_a_address: [u8; 32],
    /// The account that holds the pool's balance of asset B.
    pub reserve_b_address: [u8; 32],
    /// The pool's own address, which signs for its reserves and its share mint.
    pub authority: [u8; 32],
    /// The bump seed that makes `authority` a program address.
    pub authority_bump: u8,
}

/// The market-wide settings: who may create pools, and their fee.
#[derive(Debug, Clone, Copy, PartialEq, Eq)]
pub struct AmmConfig {
    pub authority: [u8; 32],
    pub fee_bps: u16,
}

impl Pool {
    pub open spec fn wf(&self) -> bool {
        self.fee_bps < 10000 && self.asset_a@ != self.asset_b@
    }
}

impl AmmConfig {
    pub open spec fn wf(&self) -> bool {
        self.fee_bps < 10000
    }
}

/// The address of the token account that `owner` holds of `mint`: the
/// program address for `[owner, token program, mint]` under the
/// associated-token-account program.
pub open spec fn associated_address(associated_token: [u8; 32], owner: [u8; 32], token_program: [u8; 32], mint: [u8; 32]) -> Option<([u8; 32], u8)> {
    program_address(seq![owner@, token_program@, mint@], associated_token)
}

/// The pool for `(asset_a, asset_b)` in the order given. Refused when the fee
/// is not below 10000 basis points, when the two assets are the same, and
/// when an address cannot be derived.
pub open spec fn create_pool_result(programs: ProgramIds, asset_a: [u8; 32], asset_b: [u8; 32], fee_bps: u16) -> Result<Pool, AmmErrorCode> {
    if fee_bps >= 10000 {
        Err(AmmErrorCode::InvalidFee)
    } else if asset_a@ == asset_b@ {
        Err(AmmErrorCode::InvalidMint)
    } else {
        match program_address(seq![pool_tag(), asset_a@, asset_b@], programs.amm) {
            None => Err(AmmErrorCode::AddressUnavailable),
            Some((pool, bump)) => match (
                program_address(seq![lp_tag(), pool@], programs.amm),
                associated_address(programs.associated_token, pool, programs.token_a, asset_a),
                associated_address(programs.associated_token, pool, programs.token_b, asset_b),
            ) {
                (Some((lp, _)), Some((reserve_a, _)), Some((reserve_b, _))) => Ok(Pool {
                    asset_a,
                    asset_b,
                    lp_share_id: lp,
                    fee_bps,
                    reserve_a_address: reserve_a,
                    reserve_b_address: reserve_b,
                    authority: pool,
                    authority_bump: bump,
                }),
                _ => Err(AmmErrorCode::AddressUnavailable),
            },
        }
    }
}

/// Whether every address of the pool for `(asset_a, asset_b)` can be derived.
pub open spec fn addresses_derivable(programs: ProgramIds, asset_a: [u8; 32], asset_b: [u8; 32]) -> bool {
    match program_address(seq![pool_tag(), asset_a@, asset_b@], programs.amm) {
        None => false,
        Some((pool, _)) => {
            &&& program_address(seq![lp_tag(), pool@], programs.amm) is Some
            &&& associated_address(programs.associated_token, pool, programs.token_a, asset_a) is Some
            &&& associated_address(programs.associated_token, pool, programs.token_b, asset_b) is Some
        },
    }
}

/// A fee of 10000 basis points or more is always refused with `InvalidFee`,
/// whatever the assets; a fee below that always yields a pool with that fee,
/// for two distinct assets whose addresses can be derived.
pub proof fn lemma_create_pool_fee_rule(programs: ProgramIds, asset_a: [u8; 32], asset_b: [u8; 32], fee_bps: u16)
    ensures
        fee_bps >= 10000 ==> create_pool_result(programs, asset_a, asset_b, fee_bps)
            == Err::<Pool, AmmErrorCode>(AmmErrorCode::InvalidFee),
        fee_bps < 10000 && asset_a@ != asset_b@ && addresses_derivable(programs, asset_a, asset_b)
            ==> (create_pool_result(programs, asset_a, asset_b, fee_bps) matches Ok(p) && p.fee_bps == fee_bps
            && p.asset_a == asset_a && p.asset_b == asset_b),
{
}

/// Whether two identifiers are the same.
pub fn same_id(a: &[u8; 32], b: &[u8; 32]) -> (r: bool)
    ensures
        r == (a@ == b@),
{
    let mut i: usize = 0;
    while i < 32
        invariant
            0 <= i <= 32,
            a@.len() == 32,
            b@.len() == 32,
            forall|j: int| 0 <= j < i ==> a@[j] == b@[j],
        decreases 32 - i,
    {
        if a[i] != b[i] {
            assert(a@[i as int] != b@[i as int]);
            return false;
        }
        i = i + 1;
    }
    assert(a@ =~= b@);
    true
}

fn id_bytes(a: &[u8; 32]) -> (r: Vec<u8>)
    ensures
        r@ == a@,
{
    let mut out: Vec<u8> = Vec::new();
    let mut i: usize = 0;
    while i < 32
        invariant
            0 <= i <= 32,
            a@.len() == 32,
            out@ == a@.subrange(0, i as int),
        decreases 32 - i,
    {
        out.push(a[i]);
        i = i + 1;
        assert(out@ =~= a@.subrange(0, i as int));
    }
    assert(a@.subrange(0, 32) =~= a@);
    out
}

/// Checks the fee and writes the market-wide settings.
pub fn initialize_config(authority: [u8; 32], fee_bps: u16) -> (r: Result<AmmConfig, AmmErrorCode>)
    ensures
        fee_bps >= 10000 ==> r == Err::<AmmConfig, AmmErrorCode>(AmmErrorCode::InvalidFee),
        fee_bps < 10000 ==> r == Ok::<AmmConfig, AmmErrorCode>(AmmConfig { authority, fee_bps }),
        r matches Ok(c) ==> c.wf(),
{
    if fee_bps >= 10000 {
        return Err(AmmErrorCode::InvalidFee);
    }
    Ok(AmmConfig { authority, fee_bps })
}

/// Validates a new pair and derives the pool's addresses: its own (which is
/// its authority), its LP share mint's, and its two reserve accounts'.
pub fn create_pool(programs: &ProgramIds, asset_a: [u8; 32], asset_b: [u8; 32], fee_bps: u16) -> (r: Result<Pool, AmmErrorCode>)
    ensures
        r == create_pool_result(*programs, asset_a, asset_b, fee_bps),
        r matches Ok(p) ==> p.wf(),
{
    if fee_bps >= 10000 {
        return Err(AmmErrorCode::InvalidFee);
    }
    if same_id(&asset_a, &asset_b) {
        return Err(AmmErrorCode::InvalidMint);
    }
    let pool_seeds = vec![vec![112u8, 111u8, 111u8, 108u8], id_bytes(&asset_a), id_bytes(&asset_b)];
    assert(seeds_view(pool_seeds@) =~= seq![pool_tag(), asset_a@, asset_b@]);
    let (authority, authority_bump) = match find_program_address(&pool_seeds, &programs.amm) {
        Some(found) => found,
        None => return Err(AmmErrorCode::AddressUnavailable),
    };
    let lp_seeds = vec![vec![108u8, 112u8], id_bytes(&authority)];
    assert(seeds_view(lp_seeds@) =~= seq![lp_tag(), authority@]);
    let lp = find_program_address(&lp_seeds, &programs.amm);
    let reserve_a_seeds = vec![id_bytes(&authority), id_bytes(&programs.token_a), id_bytes(&asset_a)];
    assert(seeds_view(reserve_a_seeds@) =~= seq![authority@, programs.token_a@, asset_a@]);
    let reserve_a = find_program_address(&reserve_a_seeds, &programs.associated_token);
    let reserve_b_seeds = vec![id_bytes(&authority), id_bytes(&programs.token_b), id_bytes(&asset_b)];
    assert(seeds_view(reserve_b_seeds@) =~= seq![authority@, programs.token_b@, asset_b@]);
    let reserve_b = find_program_address(&reserve_b_seeds, &programs.associated_token);
    match (lp, reserve_a, reserve_b) {
        (Some((lp_share_id, _)), Some((reserve_a_address, _)), Some((reserve_b_address, _))) => Ok(Pool {
            asset_a,
            asset_b,
            lp_share_id,
            fee_bps,
            reserve_a_address,
            reserve_b_address,
            authority,
            authority_bump,
        }),
        _ => Err(AmmErrorCode::AddressUnavailable),
    }
}

} // verus!
