use crawler::worker::{pool_size, Mapper, MappingBox, Worker, WORKERS_PER_CORE};
use std::sync::mpsc::channel;
use std::sync::{Arc, Mutex};

#[test]
fn the_pool_has_four_workers_per_core() {
    assert_eq!(WORKERS_PER_CORE, 4);
    assert_eq!(pool_size(1), 4);
    assert_eq!(pool_size(2), 8);
    assert_eq!(pool_size(16), 64);
    assert_eq!(pool_size(0), 0);
}

#[test]
fn a_boxed_closure_maps_its_input() {
    let offset = 40;
    let mapper: Mapper<u32, u32> = Box::new(move |x: u32| x + offset);
    assert_eq!(mapper.map(2), 42);
    let length: Mapper<String, usize> = Box::new(|s: String| s.len());
    assert_eq!(length.map("four".to_string()), 4);
}

#[test]
fn a_worker_is_made_of_two_queues_and_a_mapping() {
    let (input, from_input) = channel::<String>();
    let (to_output, output) = channel::<usize>();
    let from_input = Arc::new(Mutex::new(from_input));
    let to_output = Arc::new(Mutex::new(to_output));
    let worker = Worker::new(from_input.clone(), to_output.clone(), Box::new(|s: String| s.len()));
    assert_eq!(Arc::strong_count(&from_input), 2);
    assert_eq!(Arc::strong_count(&to_output), 2);
    input.send("abc".to_string()).unwrap();
    let taken = from_input.lock().unwrap().recv().unwrap();
    assert_eq!(taken, "abc");
    drop(worker);
    assert_eq!(Arc::strong_count(&from_input), 1);
    assert_eq!(Arc::strong_count(&to_output), 1);
    drop(to_output);
    assert!(output.recv().is_err());
}
