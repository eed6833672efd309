use netfsck::parser::ParseError;
use netfsck::runner::{Environment, EvalError, NetIo, NoNet, RuntimeFault};

/// A scripted network for tests: connections succeed, sent bytes are
/// recorded, and reads hand back a canned buffer.
struct ScriptNet {
    sent: Vec<Vec<u8>>,
    incoming: Vec<u8>,
    shutdown_ok: bool,
}

impl ScriptNet {
    fn new(incoming: Vec<u8>) -> ScriptNet {
        ScriptNet { sent: Vec::new(), incoming, shutdown_ok: true }
    }
}

impl NetIo for ScriptNet {
    fn connect(&mut self, _a: u8, _b: u8, _c: u8, _d: u8, _port: u16, _timeout_ms: Option<u64>) -> bool {
        true
    }

    fn shutdown(&mut self, _handle: usize) -> bool {
        self.shutdown_ok
    }

    fn send(&mut self, _handle: usize, data: &Vec<u8>) -> bool {
        self.sent.push(data.clone());
        true
    }

    fn receive(&mut self, _handle: usize, amount: usize) -> Option<Vec<u8>> {
        if self.incoming.len() == amount {
            Some(self.incoming.clone())
        } else {
            None
        }
    }
}

const BUDGET: u64 = 1_000_000;

#[test]
fn wraparound_increment_at_max() {
    let mut env = Environment::new(1);
    env.op_inc(2147483647);
    assert_eq!(env.tape[0], i32::MAX);
    env.op_inc(1);
    assert_eq!(env.tape[0], i32::MIN);
}

#[test]
fn wraparound_decrement_at_min() {
    let mut env = Environment::new(1);
    env.op_inc(2147483647);
    env.op_inc(1);
    assert_eq!(env.tape[0], i32::MIN);
    env.op_dec(1);
    assert_eq!(env.tape[0], i32::MAX);
}

#[test]
fn amount_truncates_to_low_32_bits() {
    let mut env = Environment::new(1);
    env.op_inc(4294967296);
    assert_eq!(env.tape[0], 0);
    env.op_inc(4294967297);
    assert_eq!(env.tape[0], 1);
}

#[test]
fn fresh_environment_is_zeroed() {
    let env = Environment::new(4);
    assert_eq!(env.tape, vec![0, 0, 0, 0]);
    assert_eq!(env.ptr, 0);
    assert_eq!(env.connections, 0);
    assert_eq!(env.port, None);
    assert_eq!(env.handle, None);
    assert_eq!(env.timeout_ms, Some(1000));
    assert!(env.write_buffer.is_empty());
}

#[test]
fn hello_world_runs() {
    let hello_world = ">++++++++[-<+++++++++>]<.>>+>-[+]++>++>+++[>[->+++<<+++>]<<]>-----.>->+++..+++.>-.<<+[>[+>+]>>]<--------------.>>.+++.------.--------.>+.>+.";
    let mut env = Environment::new(30000);
    let mut net = NoNet;
    assert_eq!(env.evaluate(hello_world, &mut net, BUDGET), Ok(()));
}

#[test]
fn empty_nested_loop_has_no_effect() {
    let mut env = Environment::new(8);
    let mut net = NoNet;
    assert_eq!(env.evaluate("[[]]", &mut net, BUDGET), Ok(()));
    assert_eq!(env.tape, vec![0; 8]);
    assert_eq!(env.ptr, 0);
}

#[test]
fn loop_with_zero_cell_never_runs_body() {
    let mut env = Environment::new(2);
    let mut net = NoNet;
    assert_eq!(env.evaluate("[+]", &mut net, BUDGET), Ok(()));
    assert_eq!(env.tape[0], 0);
}

#[test]
fn loop_exits_when_cell_reaches_zero() {
    let mut env = Environment::new(2);
    let mut net = NoNet;
    assert_eq!(env.evaluate("+++++[-]", &mut net, BUDGET), Ok(()));
    assert_eq!(env.tape[0], 0);
}

#[test]
fn nonterminating_loop_exhausts_any_budget() {
    let mut env = Environment::new(2);
    let mut net = NoNet;
    assert_eq!(
        env.evaluate("+[]", &mut net, 1000),
        Err(EvalError::Fault(RuntimeFault::StepLimit))
    );
}

#[test]
fn pointer_leaving_tape_is_a_fault() {
    let mut env = Environment::new(1);
    let mut net = NoNet;
    assert_eq!(
        env.evaluate("<", &mut net, BUDGET),
        Err(EvalError::Fault(RuntimeFault::PointerOutOfBounds))
    );
    let mut env = Environment::new(1);
    assert_eq!(
        env.evaluate(">", &mut net, BUDGET),
        Err(EvalError::Fault(RuntimeFault::PointerOutOfBounds))
    );
}

#[test]
fn parse_errors_surface_through_evaluate() {
    let mut env = Environment::new(1);
    let mut net = NoNet;
    assert_eq!(
        env.evaluate("]", &mut net, BUDGET),
        Err(EvalError::Parse(ParseError::MismatchedEndLoop))
    );
    assert_eq!(
        env.evaluate("[", &mut net, BUDGET),
        Err(EvalError::Parse(ParseError::MismatchedBeginLoop))
    );
    assert_eq!(env.tape[0], 0);
}

#[test]
fn set_port_rejects_negative_cell() {
    let mut env = Environment::new(1);
    env.op_dec(5);
    env.op_set_port();
    assert_eq!(env.tape[0], -1);
    assert_eq!(env.port, None);
}

#[test]
fn set_port_takes_cell_modulo_65535() {
    let mut env = Environment::new(1);
    env.op_inc(8080);
    env.op_set_port();
    assert_eq!(env.port, Some(8080));
    assert_eq!(env.tape[0], 8080);

    let mut env = Environment::new(1);
    env.op_inc(65535);
    env.op_set_port();
    assert_eq!(env.port, Some(0));
}

#[test]
fn socket_handle_with_empty_table_writes_sentinel() {
    let mut env = Environment::new(1);
    env.op_socket_handle();
    assert_eq!(env.tape[0], -1);
    assert_eq!(env.handle, None);
}

#[test]
fn send_data_with_invalid_handle_writes_sentinel_only() {
    let mut env = Environment::new(2);
    env.op_inc(7);
    env.op_send_data(3);
    assert_eq!(env.tape[0], -1);
    assert!(env.write_buffer.is_empty());
    assert_eq!(env.connections, 0);
}

#[test]
fn flush_with_invalid_handle_writes_sentinel_and_keeps_buffer() {
    let mut env = Environment::new(1);
    let mut net = NoNet;
    env.op_flush_writes(&mut net);
    assert_eq!(env.tape[0], -1);
}

#[test]
fn receive_with_invalid_handle_writes_sentinel() {
    let mut env = Environment::new(1);
    let mut net = NoNet;
    env.op_receive(4, &mut net);
    assert_eq!(env.tape[0], -1);
}

#[test]
fn disconnect_with_invalid_handle_writes_sentinel() {
    let mut env = Environment::new(1);
    let mut net = NoNet;
    env.op_disconnect(&mut net);
    assert_eq!(env.tape[0], -1);
}

#[test]
fn connect_without_port_writes_sentinel() {
    let mut env = Environment::new(1);
    let mut net = NoNet;
    env.op_connect(&mut net);
    assert_eq!(env.tape[0], -1);
    assert_eq!(env.connections, 0);
}

#[test]
fn refused_connection_writes_sentinel_and_keeps_table_empty() {
    let mut env = Environment::new(1);
    let mut net = NoNet;
    assert_eq!(env.evaluate("`~", &mut net, BUDGET), Ok(()));
    assert_eq!(env.tape[0], -1);
    assert_eq!(env.connections, 0);
}

#[test]
fn successful_connect_appends_and_numbers_handles() {
    let mut env = Environment::new(1);
    let mut net = ScriptNet::new(Vec::new());
    env.op_inc(80);
    env.op_set_port();
    env.op_connect(&mut net);
    assert_eq!(env.tape[0], 0);
    assert_eq!(env.connections, 1);
    env.op_connect(&mut net);
    assert_eq!(env.tape[0], 1);
    assert_eq!(env.connections, 2);
}

#[test]
fn send_buffers_low_bytes_little_endian() {
    let mut env = Environment::new(1);
    let mut net = ScriptNet::new(Vec::new());
    env.op_inc(80);
    env.op_set_port();
    env.op_connect(&mut net);
    env.op_socket_handle();
    assert_eq!(env.handle, Some(0));

    env.op_inc(258);
    env.op_send_data(2);
    assert_eq!(env.write_buffer, vec![2, 1]);
    env.op_send_data(4);
    assert_eq!(env.write_buffer, vec![2, 1, 2, 1, 0, 0]);
}

#[test]
fn send_beyond_four_repeats_lowest_byte() {
    let mut env = Environment::new(1);
    let mut net = ScriptNet::new(Vec::new());
    env.op_inc(80);
    env.op_set_port();
    env.op_connect(&mut net);
    env.op_socket_handle();
    env.op_inc(258);
    env.op_send_data(6);
    assert_eq!(env.write_buffer, vec![2, 2, 2, 2, 2, 2]);
}

#[test]
fn flush_transmits_and_clears_buffer() {
    let mut env = Environment::new(1);
    let mut net = ScriptNet::new(Vec::new());
    env.op_inc(80);
    env.op_set_port();
    env.op_connect(&mut net);
    env.op_socket_handle();
    env.op_inc(5);
    env.op_send_data(1);
    env.op_flush_writes(&mut net);
    assert_eq!(net.sent, vec![vec![5]]);
    assert!(env.write_buffer.is_empty());
    assert_eq!(env.tape[0], 5);
}

#[test]
fn receive_stores_little_endian_value() {
    let mut env = Environment::new(1);
    env.store_received(&vec![1, 0, 0, 0]);
    assert_eq!(env.tape[0], 1);
    env.store_received(&vec![0, 0, 0, 255]);
    assert_eq!(env.tape[0], -16777216);
}

#[test]
fn short_receive_is_right_padded_with_zeros() {
    let mut env = Environment::new(1);
    env.store_received(&vec![1, 2]);
    assert_eq!(env.tape[0], 513);
    env.store_received(&Vec::new());
    assert_eq!(env.tape[0], 0);
}

#[test]
fn long_receive_keeps_last_four_bytes() {
    let mut env = Environment::new(1);
    env.store_received(&vec![9, 9, 4, 3, 2, 1]);
    assert_eq!(env.tape[0], 16909060);
}

#[test]
fn receive_failure_writes_sentinel() {
    let mut env = Environment::new(1);
    let mut net = ScriptNet::new(vec![1, 2, 3]);
    env.op_inc(80);
    env.op_set_port();
    env.op_connect(&mut net);
    env.op_socket_handle();
    env.op_receive(8, &mut net);
    assert_eq!(env.tape[0], -1);
}

#[test]
fn set_timeout_disables_on_nonpositive_cell() {
    let mut env = Environment::new(1);
    env.op_set_timeout();
    assert_eq!(env.timeout_ms, None);
    env.op_inc(500);
    env.op_set_timeout();
    assert_eq!(env.timeout_ms, Some(500));
}

#[test]
fn failed_shutdown_writes_sentinel_but_success_leaves_cell() {
    let mut env = Environment::new(1);
    let mut net = ScriptNet::new(Vec::new());
    env.op_inc(80);
    env.op_set_port();
    env.op_connect(&mut net);
    env.op_socket_handle();
    env.op_inc(42);
    env.op_disconnect(&mut net);
    assert_eq!(env.tape[0], 42);
    net.shutdown_ok = false;
    env.op_disconnect(&mut net);
    assert_eq!(env.tape[0], -1);
}
