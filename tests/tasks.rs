use marcel_os::interrupts::{init_idt, IdtEntry, InterruptHandler, InterruptIndex, DOUBLE_FAULT_IST_INDEX};
use marcel_os::task::executor::{Executor, ReadyQueue};
use marcel_os::task::keyboard::{ScancodeOutcome, ScancodeStream};
use marcel_os::task::simple_executor::SimpleExecutor;
use marcel_os::task::{Task, TaskId, TaskIdGenerator};
use marcel_os::QemuExitCode;

#[test]
fn task_ids_increase() {
    let mut ids = TaskIdGenerator::new();
    let a = Task::new(&mut ids, "first");
    let b = Task::new(&mut ids, "second");
    assert_eq!(a.id(), TaskId(0));
    assert_eq!(b.id(), TaskId(1));
    assert_eq!(b.into_parts(), (TaskId(1), "second"));
}

#[test]
fn executor_polls_spawned_tasks_in_order() {
    let mut ids = TaskIdGenerator::new();
    let mut q = ReadyQueue::new();
    let mut e = Executor::new();
    assert!(q.is_idle());
    let a = Task::new(&mut ids, "a");
    let b = Task::new(&mut ids, "b");
    let (ida, idb) = (a.id(), b.id());
    e.spawn(&mut q, a);
    e.spawn(&mut q, b);
    assert!(e.has_task(ida) && e.has_task(idb));
    assert!(!q.is_idle());
    assert_eq!(e.next_ready(&mut q), Some(ida));
    assert_eq!(e.next_ready(&mut q), Some(idb));
    assert_eq!(e.next_ready(&mut q), None);
    assert!(q.is_idle());
}

#[test]
fn executor_lends_futures() {
    let mut ids = TaskIdGenerator::new();
    let mut q = ReadyQueue::new();
    let mut e = Executor::new();
    let t = Task::new(&mut ids, 1u32);
    let id = t.id();
    e.spawn(&mut q, t);
    let other = Task::new(&mut ids, 7u32);
    let other_id = other.id();
    e.spawn(&mut q, other);
    *e.future_mut(id) += 41;
    assert_eq!(*e.future_mut(id), 42);
    assert_eq!(*e.future_mut(other_id), 7);
    assert!(!e.has_task(TaskId(99)));
}

#[test]
fn completed_task_is_not_polled_again() {
    let mut ids = TaskIdGenerator::new();
    let mut q = ReadyQueue::new();
    let mut e = Executor::new();
    let t = Task::new(&mut ids, ());
    let id = t.id();
    e.spawn(&mut q, t);
    assert_eq!(e.next_ready(&mut q), Some(id));
    assert!(q.can_wake());
    q.wake(id);
    e.complete(id);
    assert!(!e.has_task(id));
    assert!(!q.is_idle());
    assert_eq!(e.next_ready(&mut q), None);
    assert!(q.is_idle());
}

#[test]
fn woken_task_is_polled_again() {
    let mut ids = TaskIdGenerator::new();
    let mut q = ReadyQueue::new();
    let mut e = Executor::new();
    let a = Task::new(&mut ids, ());
    let b = Task::new(&mut ids, ());
    let (ida, idb) = (a.id(), b.id());
    e.spawn(&mut q, a);
    e.spawn(&mut q, b);
    assert_eq!(e.next_ready(&mut q), Some(ida));
    q.wake(ida);
    assert_eq!(e.next_ready(&mut q), Some(idb));
    assert_eq!(e.next_ready(&mut q), Some(ida));
}

#[test]
fn ready_queue_capacity() {
    let mut ids = TaskIdGenerator::new();
    let mut q = ReadyQueue::new();
    let mut e = Executor::new();
    for _ in 0..100 {
        assert!(q.can_wake());
        e.spawn(&mut q, Task::new(&mut ids, ()));
    }
    assert!(!q.can_wake());
}

#[test]
fn scancodes_delivered_in_order() {
    let mut s = ScancodeStream::new();
    assert_eq!(s.poll_next(), None);
    assert_eq!(s.add_scancode(0x1e), ScancodeOutcome::Queued);
    assert_eq!(s.add_scancode(0x9e), ScancodeOutcome::Queued);
    assert_eq!(s.poll_next(), Some(0x1e));
    assert_eq!(s.poll_next(), Some(0x9e));
    assert_eq!(s.poll_next(), None);
}

#[test]
fn keyboard_flood_drops_overflow() {
    let mut s = ScancodeStream::new();
    let mut queued = 0;
    let mut dropped = 0;
    for i in 0..200u32 {
        match s.add_scancode((i % 256) as u8) {
            ScancodeOutcome::Queued => queued += 1,
            ScancodeOutcome::Dropped => dropped += 1,
        }
    }
    assert_eq!(queued, 100);
    assert_eq!(dropped, 100);
    for i in 0..100u8 {
        assert_eq!(s.poll_next(), Some(i));
    }
    assert_eq!(s.poll_next(), None);
}

#[test]
fn simple_executor_is_fifo() {
    let mut ids = TaskIdGenerator::new();
    let mut e = SimpleExecutor::new();
    e.spawn(Task::new(&mut ids, 'a'));
    e.spawn(Task::new(&mut ids, 'b'));
    let t = e.next_task().unwrap();
    assert_eq!(t.id(), TaskId(0));
    e.spawn(t);
    assert_eq!(e.next_task().unwrap().id(), TaskId(1));
    assert_eq!(e.next_task().unwrap().id(), TaskId(0));
    assert!(e.next_task().is_none());
}

#[test]
fn idt_layout() {
    let idt = init_idt();
    assert_eq!(idt.len(), 256);
    assert_eq!(idt[3], Some(IdtEntry { handler: InterruptHandler::Breakpoint, stack_index: None }));
    assert_eq!(
        idt[8],
        Some(IdtEntry { handler: InterruptHandler::DoubleFault, stack_index: Some(DOUBLE_FAULT_IST_INDEX) })
    );
    assert_eq!(idt[14], Some(IdtEntry { handler: InterruptHandler::PageFault, stack_index: None }));
    assert_eq!(idt[32], Some(IdtEntry { handler: InterruptHandler::Timer, stack_index: None }));
    assert_eq!(idt[33], Some(IdtEntry { handler: InterruptHandler::Keyboard, stack_index: None }));
    assert_eq!(idt.iter().filter(|e| e.is_some()).count(), 5);
    assert_eq!(InterruptIndex::Timer.as_u8(), 32);
    assert_eq!(InterruptIndex::Keyboard.as_usize(), 33);
}

#[test]
fn qemu_exit_codes() {
    assert_eq!(QemuExitCode::Success.as_u32(), 0x10);
    assert_eq!(QemuExitCode::Failed.as_u32(), 0x11);
}

#[test]
fn trivial_assertion() {
    assert_eq!(1, 1);
}

#[test]
fn double_fault_stack_top_is_past_the_stack() {
    assert_eq!(marcel_os::gdt::stack_top(0x1000), 0x1000 + 5 * 4096);
}
