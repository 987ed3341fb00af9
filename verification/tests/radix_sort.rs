use fluid_sim::radix_sort::{sort_pairs, KeyVal};
use rand::{thread_rng, Rng};

#[test]
fn fill_counters() {
    let block_size = 8u32;
    let bin_cnt = 1u64 << block_size;
    let mask = (1u32 << block_size) - 1;
    let n = 100_000;
    let pass_cnt = 32 / block_size;

    let mut rng = thread_rng();
    let mut keys = Vec::with_capacity(n);
    for _ in 0..n {
        let x: u32 = rng.gen();
        keys.push(x);
    }
    let pairs: Vec<KeyVal> = keys
        .iter()
        .enumerate()
        .map(|(i, &key)| KeyVal { key, val: i as u32 })
        .collect();

    for pass_ind in 0..pass_cnt {
        let mut expected_bins = vec![0u32; bin_cnt as usize];

        for key in &keys {
            let tmp = key & (mask << (pass_ind * block_size));
            let bin = tmp >> (pass_ind * block_size);
            expected_bins[bin as usize] += 1;
        }

        let bins = fluid_sim::radix_sort::fill_counters(&pairs, pass_ind);

        assert_eq!(bins, expected_bins);
    }
}

#[test]
fn prescan() {
    let n = 256;

    let mut expected = vec![0u32; n];

    let mut rng = rand::thread_rng();
    for _ in 0..100 {
        let data: Vec<u32> = (0..n).map(|_| rng.gen_range(0..1000)).collect();

        for i in 1..n {
            expected[i] = expected[i - 1] + data[i - 1];
        }

        let mut scanned = data.clone();
        fluid_sim::radix_sort::prescan(&mut scanned);

        assert_eq!(scanned, expected);
    }
}

#[test]
fn sort() {
    let n = 10;

    let mut rng = rand::thread_rng();
    for _ in 0..100 {
        let mut keys: Vec<u32> = (0..n).map(|_| rng.gen_range(0..1024)).collect();

        let mut pairs: Vec<KeyVal> = keys
            .iter()
            .enumerate()
            .map(|(i, &key)| KeyVal { key, val: i as u32 })
            .collect();
        sort_pairs(&mut pairs);
        let sorted_keys: Vec<u32> = pairs.iter().map(|kv| kv.key).collect();

        keys.sort();

        assert_eq!(sorted_keys, keys);
    }
}

#[test]
fn fill_counters_known_values() {
    let pairs: Vec<KeyVal> = [1u32, 1, 2, 256]
        .iter()
        .enumerate()
        .map(|(i, &key)| KeyVal { key, val: i as u32 })
        .collect();

    let bins0 = fluid_sim::radix_sort::fill_counters(&pairs, 0);
    assert_eq!(bins0[0], 1);
    assert_eq!(bins0[1], 2);
    assert_eq!(bins0[2], 1);
    assert_eq!(bins0[3], 0);

    let bins1 = fluid_sim::radix_sort::fill_counters(&pairs, 1);
    assert_eq!(bins1[0], 3);
    assert_eq!(bins1[1], 1);
    assert_eq!(bins1[2], 0);
}

#[test]
fn prescan_known_values() {
    let mut data = vec![0u32; 256];
    data[0] = 1;
    data[1] = 2;
    data[2] = 3;
    fluid_sim::radix_sort::prescan(&mut data);
    assert_eq!(data[0], 0);
    assert_eq!(data[1], 1);
    assert_eq!(data[2], 3);
    assert_eq!(data[3], 6);
    assert_eq!(data[255], 6);
}

/// Full-size key-value sort: keys ascending, and every key keeps exactly
/// its original multiset of paired values, with `n` not a multiple of the
/// workgroup size.
#[test]
fn sort_large_with_values() {
    let n = 100_000;
    let mut rng = thread_rng();

    let mut pairs: Vec<KeyVal> = (0..n)
        .map(|i| KeyVal {
            key: rng.gen_range(0..512),
            val: i as u32,
        })
        .collect();
    let mut reference: Vec<(u32, u32)> = pairs.iter().map(|kv| (kv.key, kv.val)).collect();

    sort_pairs(&mut pairs);

    for w in pairs.windows(2) {
        assert!(w[0].key <= w[1].key);
    }

    let mut result: Vec<(u32, u32)> = pairs.iter().map(|kv| (kv.key, kv.val)).collect();
    result.sort();
    reference.sort();
    assert_eq!(result, reference);
}
