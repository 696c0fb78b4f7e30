//! A worker of the pool: a mapping from inputs to outputs between two
//! shared queues.

use std::sync::mpsc::{Receiver, Sender};
use std::sync::{Arc, Mutex};
use vstd::prelude::*;

verus! {

/// The number of workers that the pool runs for each core of the machine.
/// Most of a task's time is spent waiting for the network.
pub const WORKERS_PER_CORE: usize = 4;

/// `std::sync::Mutex`; opaque here.
#[verifier::external_type_specification]
#[verifier::external_body]
#[verifier::reject_recursive_types(T)]
pub struct ExMutex<T: ?Sized>(Mutex<T>);

/// `std::sync::mpsc::Receiver`; opaque here.
#[verifier::external_type_specification]
#[verifier::external_body]
#[verifier::reject_recursive_types(T)]
pub struct ExReceiver<T>(Receiver<T>);

/// `std::sync::mpsc::Sender`; opaque here.
#[verifier::external_type_specification]
#[verifier::external_body]
#[verifier::reject_recursive_types(T)]
pub struct ExSender<T>(Sender<T>);

/// The size of the pool on a machine with `cores` cores.
pub fn pool_size(cores: usize) -> (workers: usize)
    requires
        cores * WORKERS_PER_CORE <= usize::MAX,
    ensures
        workers == cores * WORKERS_PER_CORE,
{
    cores * WORKERS_PER_CORE
}

/// A mapping that can be moved into a worker and applied there once.
pub trait MappingBox<In, Out>: Send {
    /// The inputs that the mapping may be applied to.
    spec fn accepts(&self, input: In) -> bool;

    /// The outputs that the mapping may give for an input.
    spec fn relates(&self, input: In, output: Out) -> bool;

    fn map(self: Box<Self>, input: In) -> (output: Out)
        requires
            self.accepts(input),
        ensures
            self.relates(input, output),
    ;
}

impl<In, Out, F: Fn(In) -> Out + Send> MappingBox<In, Out> for F {
    open spec fn accepts(&self, input: In) -> bool {
        self.requires((input,))
    }

    open spec fn relates(&self, input: In, output: Out) -> bool {
        self.ensures((input,), output)
    }

    fn map(self: Box<F>, input: In) -> (output: Out) {
        (*self)(input)
    }
}

/// A boxed mapping, as a worker holds it.
pub type Mapper<In, Out> = Box<dyn MappingBox<In, Out>>;

/// One worker: it takes inputs from a shared queue, applies its mapping and
/// sends the outputs downstream.
#[verifier::reject_recursive_types(In)]
#[verifier::reject_recursive_types(Out)]
pub struct Worker<In, Out> where In: Send + 'static, Out: Send + 'static {
    input_queue: Arc<Mutex<Receiver<In>>>,
    output_queue: Arc<Mutex<Sender<Out>>>,
    mapper: Mapper<In, Out>,
}

impl<In, Out> Worker<In, Out> where In: Send + 'static, Out: Send + 'static {
    /// The queue that the worker takes its inputs from.
    pub closed spec fn input_queue(&self) -> Arc<Mutex<Receiver<In>>> {
        self.input_queue
    }

    /// The queue that the worker sends its outputs to.
    pub closed spec fn output_queue(&self) -> Arc<Mutex<Sender<Out>>> {
        self.output_queue
    }

    /// The inputs that the worker's mapping may be applied to.
    pub closed spec fn accepts(&self, input: In) -> bool {
        self.mapper.accepts(input)
    }

    /// The outputs that the worker's mapping may give for an input.
    pub closed spec fn relates(&self, input: In, output: Out) -> bool {
        self.mapper.relates(input, output)
    }

    /// A worker between the two queues that applies `mapper`.
    pub fn new(
        input_queue: Arc<Mutex<Receiver<In>>>,
        output_queue: Arc<Mutex<Sender<Out>>>,
        mapper: Mapper<In, Out>,
    ) -> (worker: Self)
        ensures
            worker.input_queue() == input_queue,
            worker.output_queue() == output_queue,
            forall|input: In| #[trigger] worker.accepts(input) == mapper.accepts(input),
            forall|input: In, output: Out| #[trigger]
                worker.relates(input, output) == mapper.relates(input, output),
    {
        Worker { input_queue, output_queue, mapper }
    }
}

} // verus!
