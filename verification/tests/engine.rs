use fastgmad::conf::CreateGmaConfig;
use fastgmad::create::{create_gma, seekable_create_gma, AddonMetadata, FileMeta};
use fastgmad::engine::{EntryQueue, MemoryBudget};
use fastgmad::progress::ProgressPrinter;

fn meta(title: &str, json: &str) -> AddonMetadata {
    AddonMetadata { title: title.to_string(), ignore: Vec::new(), json: json.to_string() }
}

fn tree(n: usize, file_size: usize) -> (Vec<FileMeta>, Vec<Vec<u8>>) {
    let mut files = Vec::new();
    let mut payloads = Vec::new();
    for i in 0..n {
        let body: Vec<u8> = (0..file_size).map(|j| ((i * 31 + j * 17) % 256) as u8).collect();
        files.push(FileMeta {
            relative_path: format!("lua/f{:04}.lua", i),
            size: body.len() as u64,
        });
        payloads.push(body);
    }
    (files, payloads)
}

#[test]
fn test_parallel_create_equals_sequential() {
    let json = "{\"title\":\"par\"}";
    let (files, payloads) = tree(100, 1024);

    let mut seq_conf = CreateGmaConfig::default();
    seq_conf.max_io_threads = 1;
    let sequential = create_gma(&seq_conf, &meta("par", json), &files, &payloads, 99).unwrap();

    let mut par_conf = CreateGmaConfig::default();
    par_conf.max_io_threads = 8;
    par_conf.max_io_memory_usage = 16 * 1024;
    let parallel = seekable_create_gma(&par_conf, &meta("par", json), &files, &payloads, 99)
        .unwrap();

    assert_eq!(sequential, parallel);
}

#[test]
fn test_parallel_create_with_oversized_entry() {
    // one entry larger than the whole budget takes the unbuffered path;
    // the bytes still come out identical to the sequential writer's
    let json = "{\"title\":\"big\"}";
    let (mut files, mut payloads) = tree(5, 64);
    let big: Vec<u8> = (0..4096).map(|j| (j % 251) as u8).collect();
    files.push(FileMeta { relative_path: "lua/zz_big.lua".to_string(), size: big.len() as u64 });
    payloads.push(big);

    let sequential =
        create_gma(&CreateGmaConfig::default(), &meta("big", json), &files, &payloads, 3)
            .unwrap();

    let mut par_conf = CreateGmaConfig::default();
    par_conf.max_io_threads = 4;
    par_conf.max_io_memory_usage = 100;
    let parallel =
        seekable_create_gma(&par_conf, &meta("big", json), &files, &payloads, 3).unwrap();

    assert_eq!(sequential, parallel);
}

#[test]
fn test_memory_budget_accounting() {
    let mut b = MemoryBudget::new(100);
    assert!(b.may_proceed(50));
    // an idle engine may start even an entry beyond the budget
    assert!(b.may_proceed(1000));

    assert!(b.try_reserve(60));
    // held bytes now block an entry that would no longer fit
    assert!(!b.may_proceed(50));
    assert!(b.may_proceed(30));
    assert!(!b.try_reserve(50));
    assert!(b.try_reserve(40));
    assert!(!b.try_reserve(1));
    b.release(100);
    assert!(b.try_reserve(100));
    b.release(100);
}

#[test]
fn test_memory_budget_chunking() {
    let mut b = MemoryBudget::new(100);
    // an 80-byte entry fits at once when nothing is held
    let first = b.take_chunk(80, 80);
    assert_eq!(first, 80);
    b.release(first);

    // with 30 bytes already held, a 60-byte entry fits beside them and
    // is granted whole
    assert!(b.try_reserve(30));
    let n = b.take_chunk(60, 60);
    assert_eq!(n, 60);
    b.release(n);
    b.release(30);

    // an entry bigger than the budget is granted at most the budget per
    // chunk once the engine is idle
    let huge = b.take_chunk(u64::MAX, u64::MAX);
    assert_eq!(huge, 100);
    b.release(huge);
}

#[test]
fn test_entry_queue_hands_out_in_order() {
    let mut q = EntryQueue::new(vec![4, 2, 7]);
    assert_eq!(q.next(), Some(4));
    assert_eq!(q.next(), Some(2));
    assert_eq!(q.next(), Some(7));
    assert_eq!(q.next(), None);
    assert_eq!(q.next(), None);
}

#[test]
fn test_progress_counter() {
    let mut p = ProgressPrinter::new(200);
    assert_eq!(p.filled_cells(), 0);
    p.add_progress(50);
    assert_eq!(p.filled_cells(), 7);  // 50/200 of 30 cells, rounded down
    p.add_progress(50);
    assert_eq!(p.filled_cells(), 15);
    p.set_progress(200);
    assert_eq!(p.filled_cells(), 30);
    p.set_progress(1000);
    assert_eq!(p.filled_cells(), 30);

    let unknown = ProgressPrinter::new(0);
    assert_eq!(unknown.filled_cells(), 0);
}
