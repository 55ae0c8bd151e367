use alloy_sol_types::{sol_data, SolType};
use plutus::executor::{ExecutionStep, Executor};
use plutus::token::{Address, ERC20};
use plutus::v3_pool::{PancakeSwapV3Pool, Slot0};
use plutus::v3_swap::{apply_step_outcome, clamp, cross_step, finish_output, SwapError, SwapProgress, SwapRun};
use plutus::word::{I256, U256};
use uniswap_v3_math::swap_math::compute_swap_step;
use uniswap_v3_math::tick_math::get_sqrt_ratio_at_tick;

type AU256 = alloy_primitives::U256;

fn alloy(x: U256) -> AU256 {
    AU256::from_limbs([x.l0, x.l1, x.l2, x.l3])
}

fn ours(x: AU256) -> U256 {
    let l = x.into_limbs();
    U256 { l0: l[0], l1: l[1], l2: l[2], l3: l[3] }
}

fn alloy_address(a: Address) -> alloy_primitives::Address {
    let mut b = [0u8; 20];
    b[..4].copy_from_slice(&a.hi.to_be_bytes());
    b[4..].copy_from_slice(&a.lo.to_be_bytes());
    alloy_primitives::Address::from(b)
}

const LIQUIDITY: u128 = 1_000_000_000_000_000_000_000;

fn pool(fee_protocol: u32) -> PancakeSwapV3Pool {
    let price = ours(AU256::from(1) << 96);
    PancakeSwapV3Pool::new(
        Address::new(0xaa, 1),
        ERC20::new(Address::new(0x10, 0), "T0".to_string(), 18),
        ERC20::new(Address::new(0x20, 0), "T1".to_string(), 18),
        500,
        10,
        Slot0 { sqrt_price_x96: price, tick: 0, fee_protocol },
        U256::zero(),
        U256::zero(),
        LIQUIDITY,
        (U256::zero(), U256::zero()),
    )
}

// Runs a swap to its end, answering each request for slots from `chain`
// (zero where it has none); returns the output and how many slots were
// fetched.
fn run_to_end(p: &mut PancakeSwapV3Pool, run: &mut SwapRun, chain: &[(U256, U256)]) -> (Result<U256, SwapError>, usize) {
    let mut fetched = 0;
    for _ in 0..100 {
        match p.swap_step(run) {
            Ok(SwapProgress::Stepped) => {}
            Ok(SwapProgress::NeedSlots { slot, count }) => {
                let slots = plutus::storage::SmartContractStorage::consecutive_slots(slot, count);
                let values: Vec<U256> = slots
                    .iter()
                    .map(|s| chain.iter().find(|(k, _)| k == s).map(|(_, v)| *v).unwrap_or(U256::zero()))
                    .collect();
                let before = (p.slot0, p.liquidity, p.fee_growth_global_0_x128, p.fee_growth_global_1_x128);
                p.cache_fetched_slots(&slots, &values);
                assert_eq!(before, (p.slot0, p.liquidity, p.fee_growth_global_0_x128, p.fee_growth_global_1_x128));
                fetched += count;
            }
            Ok(SwapProgress::Done(out)) => return (Ok(out), fetched),
            Err(e) => return (Err(e), fetched),
        }
    }
    panic!("the swap did not finish");
}

fn sqrt_at(tick: i32) -> AU256 {
    get_sqrt_ratio_at_tick(tick).unwrap()
}

#[test]
fn exact_input_swap_within_one_word_matches_the_swap_math() {
    let mut p = pool(0);
    let amount = AU256::from(1_000_000_000_000_000u128);
    let token0 = p.token0.address;
    let mut run = p.exact_input_start(token0, ours(amount)).unwrap();
    assert!(run.zero_for_one && run.exact_input);
    let (out, fetched) = run_to_end(&mut p, &mut run, &[]);
    // From tick 0 the price first steps onto tick -1, then moves towards the
    // end of the bitmap word below, tick -2560, and stops short of it.
    let (price, amount_in, amount_out, fee) =
        compute_swap_step(AU256::from(1) << 96, sqrt_at(-2560), LIQUIDITY, alloy_primitives::I256::from_raw(amount), 500).unwrap();
    assert!(price > sqrt_at(-2560));
    assert_eq!(amount_in + fee, amount);
    assert_eq!(out, Ok(ours(amount_out)));
    assert_eq!(fetched, 2);
    assert_eq!(run.state.sqrt_price_x96, ours(price));
    assert_eq!(run.state.tick, uniswap_v3_math::tick_math::get_tick_at_sqrt_ratio(price).unwrap());
}

#[test]
fn crossing_an_initialized_tick_takes_its_liquidity_out() {
    let mut p = pool(0);
    // Tick -10 (compressed -1, bit 255 of word -1) is initialized with net
    // liquidity +LIQUIDITY/2: moving down across it removes that much.
    let word_slot = p.tick_bitmap.get_value_storage_slot(&-1);
    let word = ours(AU256::from(1) << 255);
    let tick_slot = p.ticks.get_value_storage_slot(&-10);
    let net = (LIQUIDITY / 2) as i128;
    let first = ours((AU256::from(net as u128) << 128) + AU256::from(LIQUIDITY / 2));
    let chain = [(word_slot, word), (tick_slot, first)];
    let amount = AU256::from(10u128.pow(19));
    let token0 = p.token0.address;
    let mut run = p.exact_input_start(token0, ours(amount)).unwrap();
    let (out, _) = run_to_end(&mut p, &mut run, &chain);

    let a = alloy_primitives::I256::from_raw(amount);
    let (p1, in1, out1, fee1) = compute_swap_step(AU256::from(1) << 96, sqrt_at(-10), LIQUIDITY, a, 500).unwrap();
    assert_eq!(p1, sqrt_at(-10));
    let rest = a - alloy_primitives::I256::from_raw(in1 + fee1);
    let (p2, in2, out2, fee2) = compute_swap_step(p1, sqrt_at(-2560), LIQUIDITY - net as u128, rest, 500).unwrap();
    assert!(p2 > sqrt_at(-2560));
    assert_eq!(in2 + fee2, rest.into_raw());
    assert_eq!(out, Ok(ours(out1 + out2)));
    assert_eq!(run.state.liquidity, LIQUIDITY - net as u128);
}

#[test]
fn the_protocol_takes_its_share_of_the_fee() {
    // fee_protocol packs token0's share (3200) in its low 16 bits.
    let mut p = pool(3200);
    let amount = AU256::from(1_000_000_000_000_000u128);
    let token0 = p.token0.address;
    let mut run = p.exact_input_start(token0, ours(amount)).unwrap();
    assert_eq!(run.cache.fee_protocol, 3200);
    let (out, _) = run_to_end(&mut p, &mut run, &[]);
    let (_, _, amount_out, fee) =
        compute_swap_step(AU256::from(1) << 96, sqrt_at(-2560), LIQUIDITY, alloy_primitives::I256::from_raw(amount), 500).unwrap();
    assert_eq!(out, Ok(ours(amount_out)));
    let share = fee * AU256::from(3200) / AU256::from(10000);
    assert_eq!(run.state.protocol_fee, share.to::<u128>());
    let growth = uniswap_v3_math::full_math::mul_div(fee - share, AU256::from(1) << 128, AU256::from(LIQUIDITY)).unwrap();
    assert_eq!(run.state.fee_growth_global_x128, ours(growth));
}

#[test]
fn swapping_token1_in_moves_the_price_up() {
    let mut p = pool(5 << 16);
    let amount = AU256::from(1_000_000_000_000_000u128);
    let token1 = p.token1.address;
    let mut run = p.exact_input_start(token1, ours(amount)).unwrap();
    assert!(!run.zero_for_one);
    assert_eq!(run.cache.fee_protocol, 5);
    let (out, _) = run_to_end(&mut p, &mut run, &[]);
    let (price, _, amount_out, _) =
        compute_swap_step(AU256::from(1) << 96, sqrt_at(2550), LIQUIDITY, alloy_primitives::I256::from_raw(amount), 500).unwrap();
    assert!(price > AU256::from(1) << 96);
    assert_eq!(out, Ok(ours(amount_out)));
}

#[test]
fn a_swap_of_nothing_gives_nothing() {
    let mut p = pool(0);
    let token0 = p.token0.address;
    let mut run = p.exact_input_start(token0, U256::zero()).unwrap();
    assert_eq!(p.swap_step(&mut run), Ok(SwapProgress::Done(U256::zero())));
}

#[test]
fn a_limit_not_beyond_the_price_is_no_swap() {
    let p = pool(0);
    let price = p.slot0.sqrt_price_x96;
    assert!(p.swap_begin(true, I256::from_raw(U256::from_u64(5)), price).is_none());
    assert!(p.swap_begin(false, I256::from_raw(U256::from_u64(5)), price).is_none());
    assert!(p.swap_begin(true, I256::from_raw(U256::from_u64(5)), U256::from_u64(4295128740)).is_some());
}

#[test]
fn a_missing_bitmap_word_is_asked_for_and_nothing_moves() {
    let mut p = pool(0);
    let token0 = p.token0.address;
    let mut run = p.exact_input_start(token0, U256::from_u64(1000)).unwrap();
    let before = run;
    let expected_slot = p.tick_bitmap.get_value_storage_slot(&0);
    assert_eq!(p.swap_step(&mut run), Ok(SwapProgress::NeedSlots { slot: expected_slot, count: 1 }));
    assert_eq!(run, before);
}

#[test]
fn a_signed_overflow_of_the_amounts_is_an_error() {
    let mut p = pool(0);
    let token0 = p.token0.address;
    // 2^255 read as a signed amount is the one value whose negation overflows.
    let mut run = p.exact_input_start(token0, ours(AU256::from(1) << 255)).unwrap();
    assert!(!run.exact_input);
    p.storage.insert(p.tick_bitmap.get_value_storage_slot(&0), U256::zero());
    assert_eq!(p.swap_step(&mut run), Err(SwapError::Overflow));
}

#[test]
fn liquidity_going_negative_at_a_crossing_is_an_error() {
    let mut p = pool(0);
    let word_slot = p.tick_bitmap.get_value_storage_slot(&-1);
    let tick_slot = p.ticks.get_value_storage_slot(&-10);
    let net = 2 * LIQUIDITY;
    let first = ours((AU256::from(net) << 128) + AU256::from(net));
    let chain = [(word_slot, ours(AU256::from(1) << 255)), (tick_slot, first)];
    let token0 = p.token0.address;
    let mut run = p.exact_input_start(token0, ours(AU256::from(10u128.pow(19)))).unwrap();
    let (out, _) = run_to_end(&mut p, &mut run, &chain);
    assert_eq!(out, Err(SwapError::Math));
}

#[test]
fn the_output_is_the_negated_amount_calculated() {
    let mut p = pool(0);
    let token0 = p.token0.address;
    let mut run = p.exact_input_start(token0, U256::from_u64(100)).unwrap();
    run.state.amount_specified_remaining = I256::zero();
    run.state.amount_calculated = I256::from_raw(ours(AU256::ZERO - AU256::from(90)));
    assert_eq!(finish_output(&run), Ok(U256::from_u64(90)));
}

#[test]
fn ticks_clamp_to_the_tick_range() {
    assert_eq!(clamp(-1_000_000), -887272);
    assert_eq!(clamp(1_000_000), 887272);
    assert_eq!(clamp(5), 5);
}

#[test]
fn the_swap_payload_is_the_pool_swap_call() {
    let p = pool(0);
    let recipient = Address::new(0x1234_5678, 0x9abc);
    let amount = U256::from_u64(777);
    let extra = vec![1u8, 2, 3, 4, 5];
    for token_in in [p.token0.address, p.token1.address] {
        let zero_for_one = token_in == p.token0.address;
        let data = p.create_payload(recipient, token_in, amount, extra.clone());
        let limit = if zero_for_one {
            uniswap_v3_math::tick_math::MIN_SQRT_RATIO + AU256::from(1)
        } else {
            uniswap_v3_math::tick_math::MAX_SQRT_RATIO - AU256::from(1)
        };
        let callback = <(sol_data::Address, sol_data::Address, sol_data::Uint<256>, sol_data::Bytes)>::abi_encode_sequence(&(
            alloy_address(p.address),
            alloy_address(token_in),
            alloy(amount),
            alloy_primitives::Bytes::from(extra.clone()),
        ));
        let params = <(sol_data::Address, sol_data::Bool, sol_data::Int<256>, sol_data::Uint<160>, sol_data::Bytes)>::abi_encode_sequence(&(
            alloy_address(recipient),
            zero_for_one,
            alloy_primitives::I256::from_raw(alloy(amount)),
            alloy_primitives::aliases::U160::from(limit),
            alloy_primitives::Bytes::from(callback),
        ));
        let mut expected = alloy_primitives::keccak256("swap(address,bool,int256,uint160,bytes)")[..4].to_vec();
        expected.extend(params);
        assert_eq!(data, expected);
    }
}

#[test]
fn a_step_outcome_moves_the_amounts_and_splits_the_fee() {
    let p = pool(3200);
    let token0 = p.token0.address;
    let run = p.exact_input_start(token0, U256::from_u64(5_000)).unwrap();
    let price = ours(sqrt_at(-10));
    let s = apply_step_outcome(&run, price, U256::from_u64(1_000), U256::from_u64(990), U256::from_u64(10)).unwrap();
    // exact input: what was paid (in + fee) leaves the remaining amount,
    // what came out is counted negatively.
    assert_eq!(alloy_primitives::I256::from_raw(alloy(s.amount_specified_remaining.raw)), alloy_primitives::I256::try_from(3_990).unwrap());
    assert_eq!(alloy_primitives::I256::from_raw(alloy(s.amount_calculated.raw)), alloy_primitives::I256::try_from(-990).unwrap());
    assert_eq!(s.sqrt_price_x96, price);
    // 3200 / 10000 of a fee of 10 goes to the protocol, the rest to liquidity.
    assert_eq!(s.protocol_fee, 3);
    let growth = uniswap_v3_math::full_math::mul_div(AU256::from(7), AU256::from(1) << 128, AU256::from(LIQUIDITY)).unwrap();
    assert_eq!(s.fee_growth_global_x128, ours(growth));
    assert_eq!(s.tick, run.state.tick);
    assert_eq!(s.liquidity, LIQUIDITY);
}

#[test]
fn a_step_outcome_without_liquidity_leaves_the_fee_growth() {
    let mut p = pool(0);
    p.liquidity = 0;
    let token0 = p.token0.address;
    let run = p.exact_input_start(token0, U256::from_u64(100)).unwrap();
    let s = apply_step_outcome(&run, run.state.sqrt_price_x96, U256::zero(), U256::zero(), U256::from_u64(4)).unwrap();
    assert_eq!(s.fee_growth_global_x128, run.state.fee_growth_global_x128);
    assert_eq!(s.protocol_fee, 0);
    assert_eq!(alloy_primitives::I256::from_raw(alloy(s.amount_specified_remaining.raw)), alloy_primitives::I256::try_from(96).unwrap());
}

#[test]
fn crossing_a_tick_whose_net_liquidity_cannot_be_negated_is_an_overflow() {
    let p = pool(0);
    for token in [p.token0.address, p.token1.address] {
        let run = p.exact_input_start(token, U256::from_u64(1000)).unwrap();
        let next: i32 = if run.zero_for_one { -10 } else { 10 };
        let price = ours(sqrt_at(next));
        let mut moved = run.state;
        moved.sqrt_price_x96 = price;
        assert_eq!(cross_step(&run, moved, next, price, true, Some(i128::MIN)), Err(SwapError::Overflow));
        let crossed = cross_step(&run, moved, next, price, true, Some(5)).unwrap().unwrap();
        let expected = if run.zero_for_one { LIQUIDITY - 5 } else { LIQUIDITY + 5 };
        assert_eq!(crossed.liquidity, expected);
    }
}

#[test]
fn a_whole_swap_leaves_the_pool_state_as_it_was() {
    let mut p = pool(3200);
    let before = (p.slot0, p.liquidity, p.fee_growth_global_0_x128, p.fee_growth_global_1_x128, p.fee, p.tick_spacing);
    let token0 = p.token0.address;
    let mut run = p.exact_input_start(token0, U256::from_u64(1_000_000_000_000_000)).unwrap();
    let (out, fetched) = run_to_end(&mut p, &mut run, &[]);
    assert!(out.is_ok());
    assert!(fetched > 0);
    assert_eq!(before, (p.slot0, p.liquidity, p.fee_growth_global_0_x128, p.fee_growth_global_1_x128, p.fee, p.tick_spacing));
}

#[test]
fn an_opportunity_is_the_first_swap_carrying_the_other_legs() {
    let first = pool(0);
    let second = pool(0);
    let executor = Executor::new(Address::new(0x77, 7), 3);
    let token0 = first.token0.address;
    let amount = U256::from_u64(123_456);
    let others = vec![ExecutionStep { target: second.address, data: second.create_payload(executor.contract(), token0, amount, vec![]) }];
    let data = executor.opportunity_call_data(&first, token0, amount, &others);
    let extra = Executor::legs_extra(&others);
    let step = ExecutionStep { target: first.address, data: first.create_payload(executor.contract(), token0, amount, extra) };
    assert_eq!(data, Executor::call_data(&step));
    assert_eq!(&data[..4], &[0u8, 0, 0, 0x14]);
}
