use kompusim_gui::bus::{Bus, BusError};
use kompusim_gui::engine::{ExecutionEngine, ExecutionOutcome, NopEngine};
use kompusim_gui::machine::Machine;
use kompusim_gui::sim::{ChannelClosed, SimCommand, SimState, SimThread, Simulator};

fn machine_with_ram() -> Machine {
    let mut bus = Bus::new();
    bus.attach_ram(0x8000_0000, 4 * 1024).unwrap();
    Machine::new(bus, 64)
}

fn machine_with_ram_and_uart() -> Machine {
    let mut bus = Bus::new();
    bus.attach_ram(0x8000_0000, 4 * 1024).unwrap();
    bus.attach_device(String::from("uart0"), 0x1001_0000, 0x20).unwrap();
    Machine::new(bus, 64)
}

/// An engine owned by the test: it writes one byte to the transmit register
/// of the device at `0x1001_0000` and halts.
struct TxEngine {
    byte: u8,
}

impl ExecutionEngine for TxEngine {
    fn execute(&mut self, m: &mut Machine, _budget: u64) -> ExecutionOutcome {
        m.write(0x1001_0000, self.byte).unwrap();
        ExecutionOutcome::Halted
    }
}

#[test]
fn nop_run_exhausts_budget() {
    // Attach 4 KiB RAM at 0x80000000, load a single no-op instruction there,
    // point the engine at it and run with a budget of 1: the budget is used
    // up and no bus fault occurs.
    let mut sim = Simulator::new(machine_with_ram(), NopEngine::new(0x8000_0000));
    assert_eq!(
        sim.load_image(0x8000_0000, vec![0x13, 0x00, 0x00, 0x00]),
        Ok(())
    );
    assert_eq!(sim.carry_on(1), Ok(()));
    sim.stop();
    assert_eq!(sim.last_outcome(), Some(ExecutionOutcome::BudgetExhausted));
}

#[test]
fn nop_engine_advances_pc_per_step() {
    let mut m = machine_with_ram();
    m.load_image(0x8000_0000, &[0x13, 0, 0, 0, 0x13, 0, 0, 0]).unwrap();
    let mut e = NopEngine::new(0x8000_0000);
    let o = e.execute(&mut m, 2);
    assert_eq!(o, ExecutionOutcome::BudgetExhausted);
    assert_eq!(e.pc, 0x8000_0008);
}

#[test]
fn nop_run_halts_on_other_word() {
    let mut sim = Simulator::new(machine_with_ram(), NopEngine::new(0x8000_0000));
    assert_eq!(sim.load_image(0x8000_0000, vec![0x17, 0x00, 0x00, 0x00]), Ok(()));
    assert_eq!(sim.carry_on(10), Ok(()));
    sim.stop();
    assert_eq!(sim.last_outcome(), Some(ExecutionOutcome::Halted));
}

#[test]
fn nop_run_faults_on_unmapped_fetch() {
    let mut sim = Simulator::new(machine_with_ram(), NopEngine::new(0x9000_0000));
    assert_eq!(sim.carry_on(1), Ok(()));
    sim.stop();
    assert_eq!(sim.last_outcome(), Some(ExecutionOutcome::Faulted));
}

#[test]
fn device_tx_byte_polled_exactly_once() {
    // Attach a device at 0x10010000 sized 0x20 and run an instruction
    // sequence (owned by the engine collaborator) that writes 0x41 to its
    // transmit register: poll_output returns Some(0x41) exactly once.
    let mut sim = Simulator::new(machine_with_ram_and_uart(), TxEngine { byte: 0x41 });
    assert_eq!(sim.carry_on(1), Ok(()));
    sim.process_pending();
    assert_eq!(sim.console_recv(), Some(0x41));
    assert_eq!(sim.console_recv(), None);
    sim.stop();
}

#[test]
fn poll_before_any_output_is_none() {
    let mut sim = Simulator::new(machine_with_ram_and_uart(), NopEngine::new(0x8000_0000));
    assert_eq!(sim.console_recv(), None);
    sim.stop();
}

#[test]
fn stop_is_idempotent() {
    let mut sim = Simulator::new(machine_with_ram(), NopEngine::new(0x8000_0000));
    sim.stop();
    assert!(sim.stopped);
    // A second stop returns at once, unchanged and without error.
    sim.stop();
    assert!(sim.stopped);
}

#[test]
fn send_after_stop_is_channel_closed() {
    let mut sim = Simulator::new(machine_with_ram(), NopEngine::new(0x8000_0000));
    sim.stop();
    assert_eq!(sim.load_image(0x8000_0000, vec![0x13]), Err(ChannelClosed));
    assert_eq!(sim.carry_on(1), Err(ChannelClosed));
}

#[test]
fn commands_apply_in_fifo_order() {
    // Two loads to the same address: the one sent second wins, so the
    // commands were applied in exactly the order sent.
    let mut sim = Simulator::new(machine_with_ram(), NopEngine::new(0x8000_0000));
    assert_eq!(sim.load_image(0x8000_0000, vec![0xAA]), Ok(()));
    assert_eq!(sim.load_image(0x8000_0000, vec![0xBB]), Ok(()));
    sim.stop();
    assert_eq!(sim.thread.machine.read(0x8000_0000), Ok(0xBB));
}

#[test]
fn commands_after_stop_are_discarded() {
    let mut thread = SimThread::new(machine_with_ram());
    let mut engine = NopEngine::new(0x8000_0000);
    let cmds = vec![
        SimCommand::LoadImage { addr: 0x8000_0000, image: vec![0xAA] },
        SimCommand::Stop,
        SimCommand::LoadImage { addr: 0x8000_0000, image: vec![0xBB] },
    ];
    thread.run(cmds, &mut engine);
    assert_eq!(thread.state, SimState::Terminated);
    // The load sent before Stop was applied; the one after was discarded.
    assert_eq!(thread.machine.read(0x8000_0000), Ok(0xAA));
}

#[test]
fn failed_load_does_not_stop_the_loop() {
    let mut sim = Simulator::new(machine_with_ram(), NopEngine::new(0x8000_0000));
    // Out of bounds: rejected, but the loop lives on and later commands work.
    assert_eq!(sim.load_image(0x9000_0000, vec![0x13]), Ok(()));
    assert_eq!(sim.load_image(0x8000_0000, vec![0x5A]), Ok(()));
    sim.process_pending();
    assert!(!sim.stopped);
    assert_eq!(sim.thread.machine.read(0x8000_0000), Ok(0x5A));
    assert_eq!(sim.thread.machine.read(0x9000_0000), Err(BusError::BusFault));
    sim.stop();
}
