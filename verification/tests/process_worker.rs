//! Worker run-loop and mode-switch behaviour.
use vm_core::block::Block;
use vm_core::compiled_code::CompiledCode;
use vm_core::machine::{Config, Machine};
use vm_core::pool_state::PoolState;
use vm_core::process::Process;
use vm_core::process_worker::{Mode, ProcessWorker};
use vm_core::registry::BytecodeFileRegistry;

fn setup() -> (Machine, Block, Process) {
    let config = Config { primary_threads: 2, tracer_threads: 1, reductions: 1000 };
    let machine = Machine::new(config, BytecodeFileRegistry::new(Vec::new()));
    let code = CompiledCode::new("main".to_string(), 0, 0, false, 0, Vec::new());
    let block = Block::new(code, 0, 0);
    let process = Process::new(0, true, &block);
    (machine, block, process)
}

fn worker(machine: Machine) -> ProcessWorker {
    let pool_state = PoolState::new(2);
    ProcessWorker::new(0, pool_state, machine)
}

fn ordinary_process(pid: usize, block: &Block) -> Process {
    Process::new(pid, false, block)
}

#[test]
fn test_run_global_jobs() {
    let (machine, _block, process) = setup();
    let mut worker = worker(machine);

    worker.state.push_global(process);
    worker.run();

    assert!(worker.state.pop_global().is_none());
    assert_eq!(worker.state.queues[0].has_local_jobs(), false);
}

#[test]
fn test_run_with_external_jobs() {
    let (machine, _block, process) = setup();
    let mut worker = worker(machine);

    worker.state.queues[0].push_external(process);
    worker.run();

    assert_eq!(worker.state.queues[0].has_external_jobs(), false);
}

#[test]
fn test_run_steal_then_terminate() {
    let (machine, _block, process) = setup();
    let mut worker = worker(machine);

    worker.state.queues[1].push_internal(process);
    worker.run();

    assert_eq!(worker.state.queues[1].has_local_jobs(), false);
}

#[test]
fn test_run_work_and_steal() {
    let (machine, block, process) = setup();
    let process2 = ordinary_process(1, &block);
    let mut worker = worker(machine);

    worker.state.queues[0].push_internal(process2);
    worker.state.queues[1].push_internal(process);

    // Here the order of work is:
    //
    // 1. Process local job
    // 2. Steal from other queue
    // 3. Terminate
    worker.run();

    assert_eq!(worker.state.queues[0].has_local_jobs(), false);
    assert_eq!(worker.state.queues[1].has_local_jobs(), false);
}

#[test]
fn test_run_work_then_terminate_steal_loop() {
    let (machine, block, process) = setup();
    let process2 = ordinary_process(1, &block);
    let mut worker = worker(machine);

    worker.state.queues[0].push_internal(process);
    worker.state.queues[1].push_internal(process2);
    worker.run();

    assert_eq!(worker.state.queues[0].has_local_jobs(), false);
    assert!(worker.state.queues[1].has_local_jobs());
}

#[test]
fn test_run_exclusive_iteration() {
    let (machine, _block, process) = setup();
    let mut worker = worker(machine);

    worker.enter_exclusive_mode();
    worker.state.queues[0].push_external(process);
    worker.run();

    assert_eq!(worker.state.queues[0].has_external_jobs(), false);
}

#[test]
fn test_enter_exclusive_mode() {
    let (machine, block, process) = setup();
    let process2 = ordinary_process(1, &block);
    let mut worker = worker(machine);

    worker.state.queues[0].push_internal(process);
    worker.state.queues[0].push_external(process2);
    worker.enter_exclusive_mode();

    assert_eq!(worker.mode, Mode::Exclusive);
    assert_eq!(worker.state.queues[0].has_local_jobs(), false);
    assert!(worker.state.queues[0].pop_external_job().is_none());
}

#[test]
fn test_leave_exclusive_mode() {
    let (machine, _block, _process) = setup();
    let mut worker = worker(machine);

    worker.enter_exclusive_mode();
    worker.leave_exclusive_mode();

    assert_eq!(worker.mode, Mode::Normal);
}

#[test]
fn test_work_conservation_across_sources() {
    // Jobs enqueued locally, globally and externally before shutdown are
    // each dequeued exactly once: afterwards every queue is empty and no
    // job was left suspended or duplicated.
    let (machine, block, process) = setup();
    let local = ordinary_process(1, &block);
    let external = ordinary_process(2, &block);
    let stealable = ordinary_process(3, &block);
    let mut worker = worker(machine);

    worker.state.queues[0].push_internal(local);
    worker.state.queues[0].push_external(external);
    worker.state.queues[1].push_internal(stealable);
    worker.state.push_global(process);
    worker.run();

    assert_eq!(worker.state.queues[0].has_local_jobs(), false);
    assert_eq!(worker.state.queues[0].has_external_jobs(), false);
    assert_eq!(worker.state.queues[1].has_local_jobs(), false);
    assert!(worker.state.pop_global().is_none());
    assert!(worker.suspended.is_empty());
}

#[test]
fn test_exclusive_isolation() {
    // With two internal jobs and one pinned job, entering exclusive mode
    // relocates the internal jobs to the global queue, and the exclusive
    // run loop processes only the pinned job.
    let (machine, block, pinned) = setup();
    let j1 = ordinary_process(1, &block);
    let j2 = ordinary_process(2, &block);
    let mut worker = worker(machine);

    worker.state.queues[0].push_internal(j1);
    worker.state.queues[0].push_internal(j2);
    worker.enter_exclusive_mode();

    assert_eq!(worker.state.queues[0].has_local_jobs(), false);
    assert_eq!(worker.state.global_job_count(), 2);

    worker.state.queues[0].push_external(pinned);
    worker.run();

    // Only the pinned job was taken; the relocated jobs still sit in the
    // global queue, untouched by the exclusive loop.
    assert_eq!(worker.state.queues[0].has_external_jobs(), false);
    assert_eq!(worker.state.global_job_count(), 2);
}

#[test]
fn test_steal_conservation() {
    // Worker B steals exactly one of worker A's three jobs: afterwards A
    // holds two, B holds one, and no job was duplicated or dropped.
    let (machine, block, _process) = setup();
    let j1 = ordinary_process(1, &block);
    let j2 = ordinary_process(2, &block);
    let j3 = ordinary_process(3, &block);
    let mut worker = worker(machine);

    worker.state.queues[1].push_internal(j1);
    worker.state.queues[1].push_internal(j2);
    worker.state.queues[1].push_internal(j3);

    let progressed = worker.normal_iteration();

    assert!(progressed);
    assert_eq!(worker.state.queues[1].local_job_count(), 2);
    assert_eq!(worker.state.queues[0].local_job_count(), 1);
}
