use anchor_lang::prelude::Pubkey;
use anchor_spl::associated_token::get_associated_token_address_with_program_id;
use basic_amm::error::AmmErrorCode;
use basic_amm::pool::{create_pool, initialize_config, same_id, AmmConfig, ProgramIds};

fn programs() -> ProgramIds {
    ProgramIds {
        amm: [7u8; 32],
        associated_token: anchor_spl::associated_token::ID.to_bytes(),
        token_a: anchor_spl::token::ID.to_bytes(),
        token_b: anchor_spl::token_2022::ID.to_bytes(),
    }
}

const ASSET_A: [u8; 32] = [1u8; 32];
const ASSET_B: [u8; 32] = [2u8; 32];

#[test]
fn fee_of_ten_thousand_or_more_is_refused() {
    for fee in [10_000u16, 10_001, u16::MAX] {
        assert_eq!(create_pool(&programs(), ASSET_A, ASSET_B, fee), Err(AmmErrorCode::InvalidFee));
        assert_eq!(initialize_config([3u8; 32], fee), Err(AmmErrorCode::InvalidFee));
    }
}

#[test]
fn fee_below_ten_thousand_is_accepted() {
    for fee in [0u16, 30, 9_999] {
        let pool = create_pool(&programs(), ASSET_A, ASSET_B, fee).unwrap();
        assert_eq!(pool.fee_bps, fee);
        assert_eq!(pool.asset_a, ASSET_A);
        assert_eq!(pool.asset_b, ASSET_B);
        assert_eq!(initialize_config([3u8; 32], fee), Ok(AmmConfig { authority: [3u8; 32], fee_bps: fee }));
    }
}

#[test]
fn same_asset_twice_is_refused() {
    assert_eq!(create_pool(&programs(), ASSET_A, ASSET_A, 30), Err(AmmErrorCode::InvalidMint));
}

#[test]
fn pool_addresses_match_program_derivation() {
    let p = programs();
    let pool = create_pool(&p, ASSET_A, ASSET_B, 30).unwrap();
    let program = Pubkey::new_from_array(p.amm);
    let (authority, bump) = Pubkey::find_program_address(&[b"pool", &ASSET_A, &ASSET_B], &program);
    assert_eq!(pool.authority, authority.to_bytes());
    assert_eq!(pool.authority_bump, bump);
    let (lp, _) = Pubkey::find_program_address(&[b"lp", authority.as_ref()], &program);
    assert_eq!(pool.lp_share_id, lp.to_bytes());
    let reserve_a = get_associated_token_address_with_program_id(
        &authority,
        &Pubkey::new_from_array(ASSET_A),
        &anchor_spl::token::ID,
    );
    let reserve_b = get_associated_token_address_with_program_id(
        &authority,
        &Pubkey::new_from_array(ASSET_B),
        &anchor_spl::token_2022::ID,
    );
    assert_eq!(pool.reserve_a_address, reserve_a.to_bytes());
    assert_eq!(pool.reserve_b_address, reserve_b.to_bytes());
}

#[test]
fn pool_derivation_is_deterministic() {
    let first = create_pool(&programs(), ASSET_A, ASSET_B, 30).unwrap();
    let second = create_pool(&programs(), ASSET_A, ASSET_B, 30).unwrap();
    assert_eq!(first, second);
}

#[test]
fn reversed_pair_gets_a_pool_of_its_own() {
    let forward = create_pool(&programs(), ASSET_A, ASSET_B, 30).unwrap();
    let reversed = create_pool(&programs(), ASSET_B, ASSET_A, 30).unwrap();
    assert_ne!(forward.authority, reversed.authority);
}

#[test]
fn identifiers_compare_bytewise() {
    let mut other = ASSET_A;
    assert!(same_id(&ASSET_A, &other));
    other[31] = 0;
    assert!(!same_id(&ASSET_A, &other));
    assert!(!same_id(&ASSET_A, &ASSET_B));
}
