use parallel::{apply, apply_each, chunks, divide, ParallelError};
use std::sync::Mutex;

fn sample(size: usize) -> Vec<f64> {
    let mut state: u64 = 0x9E37_79B9_7F4A_7C15;
    let mut values = Vec::with_capacity(size);
    for _ in 0..size {
        state ^= state << 13;
        state ^= state >> 7;
        state ^= state << 17;
        values.push((state >> 11) as f64 / (1u64 << 53) as f64);
    }
    values
}

#[test]
fn clone() {
    for size in 0..25usize {
        for granularity in 1..30usize {
            let values = sample(size);
            let mut copy = vec![0f64; size];
            let source = &values;
            let result = divide(&mut copy, Some(granularity), 1, |data: &mut [f64], offset: usize| {
                for (i, x) in data.iter_mut().enumerate() {
                    *x = source[offset + i]
                }
            });
            assert_eq!(result, Ok(()));
            assert_eq!(values, copy);
        }
    }
}

#[test]
fn new() {
    for size in [0usize, 1, 7, 64] {
        for granularity in [1usize, 3, 64, 100] {
            let mut v = vec![None::<f64>; size];
            let result = divide(&mut v, Some(granularity), 1, |data: &mut [Option<f64>], offset: usize| {
                let values = sample(offset + data.len() + 1);
                for (i, x) in data.iter_mut().enumerate() {
                    *x = Some(values[offset + i + 1])
                }
            });
            assert_eq!(result, Ok(()));
            assert!(v.iter().all(|&x| match x {
                None => false,
                Some(x) => x > 0. && x < 1.,
            }));
        }
    }
}

#[test]
fn divide_maps_every_element() {
    let mut v = sample(1000).iter().map(|x| *x as f32).collect::<Vec<f32>>();
    let w = v.iter().map(|x| x.sin()).collect::<Vec<f32>>();
    let result = divide(&mut v, Some(100), 1, |data: &mut [f32], _: usize| {
        for x in data.iter_mut() {
            *x = x.sin();
        }
    });
    assert_eq!(result, Ok(()));
    assert_eq!(v, w);
}

#[test]
fn divide_hands_out_chunks_in_ascending_order() {
    let seen: Mutex<Vec<(usize, usize)>> = Mutex::new(Vec::new());
    let mut v = vec![0usize; 10];
    let result = divide(&mut v, Some(4), 1, |data: &mut [usize], offset: usize| {
        seen.lock().unwrap().push((offset, data.len()));
        for x in data.iter_mut() {
            *x = offset;
        }
    });
    assert_eq!(result, Ok(()));
    assert_eq!(*seen.lock().unwrap(), vec![(0, 4), (4, 4), (8, 2)]);
    assert_eq!(v, vec![0, 0, 0, 0, 4, 4, 4, 4, 8, 8]);
    let cut = chunks(10, 4);
    assert_eq!(cut.iter().map(|c| (c.offset, c.length)).collect::<Vec<_>>(), *seen.lock().unwrap());
}

#[test]
fn divide_visits_each_chunk_once() {
    let calls = Mutex::new(0usize);
    let mut v = vec![0u8; 10];
    let result = divide(&mut v, Some(3), 1, |data: &mut [u8], _: usize| {
        *calls.lock().unwrap() += 1;
        for x in data.iter_mut() {
            *x += 1;
        }
    });
    assert_eq!(result, Ok(()));
    assert_eq!(*calls.lock().unwrap(), 4);
    assert_eq!(v, vec![1u8; 10]);
}

#[test]
fn divide_refuses_zero_granularity() {
    for size in [0usize, 1, 10] {
        let calls = Mutex::new(0usize);
        let mut v = vec![7u32; size];
        let result = divide(&mut v, Some(0), 4, |data: &mut [u32], _: usize| {
            *calls.lock().unwrap() += 1;
            for x in data.iter_mut() {
                *x = 0;
            }
        });
        assert_eq!(result, Err(ParallelError::InvalidGranularity));
        assert_eq!(*calls.lock().unwrap(), 0);
        assert_eq!(v, vec![7u32; size]);
    }
}

#[test]
fn divide_on_an_empty_buffer_runs_nothing() {
    let calls = Mutex::new(0usize);
    let mut v: Vec<u32> = Vec::new();
    let result = divide(&mut v, Some(5), 1, |_: &mut [u32], _: usize| {
        *calls.lock().unwrap() += 1;
    });
    assert_eq!(result, Ok(()));
    assert_eq!(*calls.lock().unwrap(), 0);
}

#[test]
fn divide_with_open_granularity() {
    let calls = Mutex::new(0usize);
    let mut v = vec![0usize; 9];
    let result = divide(&mut v, None, 4, |data: &mut [usize], offset: usize| {
        *calls.lock().unwrap() += 1;
        for (i, x) in data.iter_mut().enumerate() {
            *x = offset + i;
        }
    });
    assert_eq!(result, Ok(()));
    assert_eq!(*calls.lock().unwrap(), 5);
    assert_eq!(v, (0..9).collect::<Vec<usize>>());
}

#[test]
fn divide_result_is_independent_of_parallelism() {
    let expected = (1..=50).map(|x| x * 2).collect::<Vec<u64>>();
    for parallelism in 1..70usize {
        let mut v = (1..=50).collect::<Vec<u64>>();
        let result = divide(&mut v, None, parallelism, |data: &mut [u64], _: usize| {
            for x in data.iter_mut() {
                *x *= 2;
            }
        });
        assert_eq!(result, Ok(()));
        assert_eq!(v, expected);
    }
}

#[test]
fn apply_increments_every_element() {
    let mut v = (1..10).collect::<Vec<usize>>();
    let w = v.iter().map(|x| x + 1).collect::<Vec<usize>>();
    let result = apply(&mut v, 4, |x: &mut usize| {
        *x = *x + 1;
    });
    assert_eq!(result, Ok(()));
    assert_eq!(v, w);
    assert_eq!(v, vec![2, 3, 4, 5, 6, 7, 8, 9, 10]);
}

#[test]
fn apply_is_independent_of_parallelism() {
    for parallelism in 1..20usize {
        let mut v = (1..10).collect::<Vec<usize>>();
        let result = apply(&mut v, parallelism, |x: &mut usize| {
            *x = *x + 1;
        });
        assert_eq!(result, Ok(()));
        assert_eq!(v, vec![2, 3, 4, 5, 6, 7, 8, 9, 10]);
    }
}

#[test]
fn increment_is_independent_of_granularity() {
    for granularity in 1..12usize {
        let mut v = (1..10).collect::<Vec<usize>>();
        let result = divide(&mut v, Some(granularity), 1, |data: &mut [usize], _: usize| {
            for x in data.iter_mut() {
                *x = *x + 1;
            }
        });
        assert_eq!(result, Ok(()));
        assert_eq!(v, vec![2, 3, 4, 5, 6, 7, 8, 9, 10]);
    }
}

#[test]
fn apply_visits_each_element_once() {
    let calls = Mutex::new(0usize);
    let mut v = vec![0u8; 37];
    let result = apply(&mut v, 8, |x: &mut u8| {
        *calls.lock().unwrap() += 1;
        *x += 1;
    });
    assert_eq!(result, Ok(()));
    assert_eq!(*calls.lock().unwrap(), 37);
    assert_eq!(v, vec![1u8; 37]);
}

#[test]
fn apply_on_an_empty_buffer() {
    let mut v: Vec<i32> = Vec::new();
    let result = apply(&mut v, 3, |x: &mut i32| {
        *x = 1;
    });
    assert_eq!(result, Ok(()));
    assert!(v.is_empty());
}

#[test]
fn apply_each_goes_in_index_order() {
    let seen = Mutex::new(0usize);
    let mut v = vec![0usize; 5];
    apply_each(&mut v, &|x: &mut usize| {
        let mut count = seen.lock().unwrap();
        *x = *count;
        *count += 1;
    });
    assert_eq!(v, vec![0, 1, 2, 3, 4]);
}
