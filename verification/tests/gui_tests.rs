use kompusim_gui::console::Console;
use kompusim_gui::decode_instr::DecodeInstr;
use kompusim_gui::gui_app::KompusimApp;
use kompusim_gui::instr_decoder::InstrDecoder;
use kompusim_gui::load_demo::LoadDemo;

#[test]
fn console_starts_closed_and_opens() {
    let mut console = Console::default();
    assert!(!console.open);
    console.open();
    assert!(console.open);
}

#[test]
fn console_receives_bytes_in_order() {
    let mut console = Console::default();
    console.receive_byte(Some(b'o'));
    console.receive_byte(None);
    console.receive_byte(Some(b'k'));
    assert_eq!(console.buffer, vec![b'o', b'k']);
}

#[test]
fn decode_instr_default_and_open() {
    let mut w = DecodeInstr::default();
    assert!(w.window_open);
    assert_eq!(w.font_size, 0);
    assert_eq!(w.instr_hex, "");
    w.window_open = false;
    w.open();
    assert!(w.window_open);
}

#[test]
fn instr_decoder_default_and_open() {
    let mut w = InstrDecoder::default();
    assert!(w.window_open);
    assert_eq!(w.instr_hex, "");
    assert_eq!(w.instr_disasm, "");
    w.window_open = false;
    w.open();
    assert!(w.window_open);
}

#[test]
fn instr_decoder_decodes_typed_word() {
    let mut w = InstrDecoder::default();
    w.instr_hex = String::from("0x9393");
    assert_eq!(w.decoded_word(), 0x9393);
    w.instr_hex = String::from("junk");
    assert_eq!(w.decoded_word(), 0);
}

#[test]
fn load_demo_open_and_choose() {
    let mut w = LoadDemo::default();
    assert!(w.window_open);
    w.demo_chosen();
    assert!(!w.window_open);
    w.open();
    assert!(w.window_open);
}

#[test]
fn font_steps_are_bounded() {
    let mut app = KompusimApp::default();
    assert_eq!(app.font_delta, 0);
    // Stepping up stops once the delta has passed the upper bound.
    for _ in 0..60 {
        app.increase_font();
    }
    assert_eq!(app.font_delta, 51);
    assert!(!app.increase_font());
    assert_eq!(app.font_delta, 51);
    // Stepping down stops once the delta has passed the lower bound.
    for _ in 0..60 {
        app.decrease_font();
    }
    assert_eq!(app.font_delta, -6);
    assert!(!app.decrease_font());
    assert_eq!(app.font_delta, -6);
}

#[test]
fn settings_window_opens() {
    let mut app = KompusimApp::default();
    assert!(!app.show_settings);
    app.open_settings();
    assert!(app.show_settings);
}
