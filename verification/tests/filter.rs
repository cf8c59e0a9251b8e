//! Filtered traces in pages.
use debank_tracing::block_trace::{
    CallType, CreateType, TransactionTrace, TransactionTraceAction, TransactionTraceOutput,
    TransactionTraceResult,
};
use debank_tracing::filter::{
    block_heights, block_id, plan_filter, FilterRequest, RequestBlockId, RequestBlockTag,
    TraceCollector,
};
use debank_tracing::primitives::{H160, H256, U256};

fn request() -> FilterRequest {
    FilterRequest {
        from_block: None,
        to_block: None,
        from_address: None,
        to_address: None,
        after: None,
        count: None,
    }
}

fn at(n: u8) -> H160 {
    H160([n; 20])
}

fn trace(action: TransactionTraceAction, position: u32) -> TransactionTrace {
    TransactionTrace {
        action,
        block_hash: H256::zero(),
        block_number: 0,
        output: TransactionTraceOutput::Result(TransactionTraceResult::Suicide),
        subtraces: 0,
        trace_address: vec![],
        transaction_hash: H256::zero(),
        transaction_position: position,
    }
}

fn call(from: u8, to: u8, position: u32) -> TransactionTrace {
    trace(
        TransactionTraceAction::Call {
            call_type: CallType::Call,
            from: at(from),
            gas: U256::zero(),
            input: vec![],
            to: at(to),
            value: U256::zero(),
        },
        position,
    )
}

fn calls(positions: std::ops::Range<u32>) -> Vec<TransactionTrace> {
    positions.map(|p| call(1, 2, p)).collect()
}

fn positions(traces: &[TransactionTrace]) -> Vec<u32> {
    traces.iter().map(|t| t.transaction_position).collect()
}

#[test]
fn blocks_have_their_heights() {
    assert_eq!(block_id(Some(RequestBlockId::Number(7)), 20, 10), Ok(7));
    assert_eq!(block_id(None, 20, 10), Ok(20));
    let tag = |t: RequestBlockTag| block_id(Some(RequestBlockId::Tag(t)), 20, 10);
    assert_eq!(tag(RequestBlockTag::Latest), Ok(20));
    assert_eq!(tag(RequestBlockTag::Earliest), Ok(0));
    assert_eq!(tag(RequestBlockTag::Finalized), Ok(10));
    assert_eq!(
        tag(RequestBlockTag::Pending),
        Err("'pending' is not supported".to_string())
    );
    assert_eq!(
        block_id(Some(RequestBlockId::Hash(H256::zero())), 20, 10),
        Err("Block hash not supported".to_string())
    );
}

#[test]
fn request_is_planned() {
    let mut req = request();
    req.from_block = Some(RequestBlockId::Number(5));
    assert_eq!(plan_filter(&req, 20, 10, 15, 500), Ok((5, 20, 500)));
    req.count = Some(7);
    assert_eq!(plan_filter(&req, 20, 10, 15, 500), Ok((5, 20, 7)));
    // A range that runs backwards is empty, not too wide.
    req.from_block = Some(RequestBlockId::Number(50));
    assert_eq!(plan_filter(&req, 20, 10, 0, 500), Ok((50, 20, 7)));
}

#[test]
fn request_that_asks_too_much_is_refused() {
    let mut req = request();
    req.from_block = Some(RequestBlockId::Number(4));
    assert_eq!(
        plan_filter(&req, 20, 10, 15, 500),
        Err("block range is too wide (maximum 15)".to_string())
    );
    req.count = Some(501);
    req.from_block = None;
    assert_eq!(
        plan_filter(&req, 20, 10, 15, 500),
        Err("count (501) can't be greater than maximum (500)".to_string())
    );
    req.to_block = Some(RequestBlockId::Tag(RequestBlockTag::Pending));
    assert_eq!(
        plan_filter(&req, 20, 10, 15, 500),
        Err("'pending' is not supported".to_string())
    );
    req.from_block = Some(RequestBlockId::Hash(H256::zero()));
    assert_eq!(
        plan_filter(&req, 20, 10, 15, 500),
        Err("Block hash not supported".to_string())
    );
}

#[test]
fn heights_leave_out_the_first_block() {
    assert_eq!(block_heights(0, 3), vec![1, 2, 3]);
    assert_eq!(block_heights(2, 3), vec![2, 3]);
    assert_eq!(block_heights(3, 3), vec![3]);
    assert_eq!(block_heights(0, 0), Vec::<u32>::new());
    assert_eq!(block_heights(4, 3), Vec::<u32>::new());
    assert_eq!(block_heights(u32::MAX, u32::MAX), vec![u32::MAX]);
}

fn collect(req: FilterRequest, count: u32, blocks: &[Vec<TransactionTrace>]) -> Result<Vec<u32>, String> {
    let mut collector = TraceCollector::new(req, count, 10);
    for block in blocks {
        assert!(collector.has_room(block.len()));
        if collector.take_in(block)? {
            break;
        }
    }
    Ok(positions(&collector.into_page()))
}

#[test]
fn page_is_cut_out_of_the_blocks() {
    let blocks = vec![calls(0..3), calls(3..4), calls(4..9)];
    let page = |after: Option<u32>, count: u32| {
        let mut req = request();
        req.after = after;
        req.count = Some(count);
        collect(req, count, &blocks)
    };
    assert_eq!(page(None, 2), Ok(vec![0, 1]));
    assert_eq!(page(Some(2), 3), Ok(vec![2, 3, 4]));
    assert_eq!(page(Some(3), 1), Ok(vec![3]));
    assert_eq!(page(Some(7), 10), Ok(vec![7, 8]));
    assert_eq!(page(Some(9), 10), Ok(vec![]));
    assert_eq!(page(Some(20), 10), Ok(vec![]));
    assert_eq!(page(None, 0), Ok(vec![]));
    assert_eq!(page(None, 9), Ok((0..9).collect()));
}

#[test]
fn pages_follow_one_another() {
    let blocks = vec![calls(0..3), calls(3..4), calls(4..9)];
    let mut all = vec![];
    for start in [0u32, 4, 8] {
        let mut req = request();
        req.after = Some(start);
        req.count = Some(4);
        all.extend(collect(req, 4, &blocks).unwrap());
    }
    assert_eq!(all, (0..9).collect::<Vec<u32>>());
}

#[test]
fn complete_page_ends_the_search() {
    let mut req = request();
    req.count = Some(2);
    let mut collector = TraceCollector::new(req, 2, 10);
    assert_eq!(collector.take_in(&calls(0..1)), Ok(false));
    assert_eq!(collector.take_in(&calls(1..2)), Ok(true));
    assert_eq!(positions(&collector.into_page()), vec![0, 1]);
}

#[test]
fn default_number_must_not_be_passed() {
    assert_eq!(collect(request(), 10, &[calls(0..9)]), Ok((0..9).collect()));
    assert_eq!(collect(request(), 10, &[calls(0..10)]), Ok((0..10).collect()));
    // The search goes on where the number is reached.
    assert_eq!(
        collect(request(), 10, &[calls(0..10), vec![]]),
        Ok((0..10).collect())
    );
    let mut later = request();
    later.after = Some(1);
    assert_eq!(collect(later, 10, &[calls(0..10), calls(10..11)]), Ok((1..11).collect()));
    assert_eq!(
        collect(request(), 10, &[calls(0..10), calls(10..11)]),
        Err(
            "the amount of traces goes over the maximum (10), please use 'after' and 'count' in your request"
                .to_string()
        )
    );
    assert_eq!(
        collect(request(), 10, &[calls(0..11)]),
        Err(
            "the amount of traces goes over the maximum (10), please use 'after' and 'count' in your request"
                .to_string()
        )
    );
}

#[test]
fn traces_are_filtered_by_address() {
    let create = |from: u8, p: u32| {
        trace(
            TransactionTraceAction::Create {
                creation_method: CreateType::Create,
                from: at(from),
                gas: U256::zero(),
                init: vec![1],
                value: U256::zero(),
            },
            p,
        )
    };
    let suicide = |address: u8, p: u32| {
        trace(
            TransactionTraceAction::Suicide {
                address: at(address),
                balance: U256::zero(),
                refund_address: at(2),
            },
            p,
        )
    };
    let block = vec![
        call(1, 2, 0),
        call(1, 3, 1),
        call(4, 2, 2),
        create(1, 3),
        suicide(1, 4),
        create(5, 5),
    ];
    let found = |from: Option<Vec<H160>>, to: Option<Vec<H160>>| {
        let mut req = request();
        req.from_address = from;
        req.to_address = to;
        let mut collector = TraceCollector::new(req, 10, 10);
        collector.take_in(&block).unwrap();
        positions(&collector.into_page())
    };
    assert_eq!(found(None, None), vec![0, 1, 2, 3, 4, 5]);
    assert_eq!(found(Some(vec![]), Some(vec![])), vec![0, 1, 2, 3, 4, 5]);
    assert_eq!(found(Some(vec![at(1)]), None), vec![0, 1, 3, 4]);
    assert_eq!(found(Some(vec![at(4), at(5)]), None), vec![2, 5]);
    assert_eq!(found(None, Some(vec![at(2)])), vec![0, 2]);
    assert_eq!(found(Some(vec![at(1)]), Some(vec![at(2)])), vec![0]);
}
