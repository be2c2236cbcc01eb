use moly::color::hex_channels;
use moly::system::{
    entry_has_weights, gguf_size_matches, is_hidden_entry, lines_of, needs_weight_check,
    parse_memsize, parse_vm_stat, parse_vm_stat_val, used_bytes, weight_file_kind, VmStats,
    WeightFileKind,
};

const VM_STAT: &str = "Mach Virtual Memory Statistics: (page size of 4096 bytes)\n\
Pages free:                               12345.\n\
Pages active:                            100.\n\
Pages inactive:                           999.\n\
Pages wired down:                          50.\n\
Pages occupied by compressor:              25.\n";

#[test]
fn vm_stat_output_is_read() {
    let st = parse_vm_stat(VM_STAT);
    assert_eq!(st, VmStats { page_size: 4096, active: 100, wired: 50, compressed: 25 });
    assert_eq!(used_bytes(st), 175 * 4096);
}

#[test]
fn vm_stat_defaults_when_empty() {
    let st = parse_vm_stat("");
    assert_eq!(st, VmStats { page_size: 16384, active: 0, wired: 0, compressed: 0 });
    assert_eq!(used_bytes(st), 0);
}

#[test]
fn vm_stat_page_size_not_a_number_falls_back() {
    let st = parse_vm_stat("Mach Virtual Memory Statistics: (page size of lots bytes)\nPages active: 2.\n");
    assert_eq!(st.page_size, 16384);
    assert_eq!(st.active, 2);
    // no space after the number: the header is ignored
    let st = parse_vm_stat("Mach Virtual Memory Statistics: (page size of 8192)");
    assert_eq!(st.page_size, 16384);
}

#[test]
fn vm_stat_later_line_wins() {
    let st = parse_vm_stat("Pages active: 1.\r\nPages active: 7.\r\n");
    assert_eq!(st.active, 7);
}

#[test]
fn vm_stat_values() {
    assert_eq!(parse_vm_stat_val("Pages active:   123."), 123);
    assert_eq!(parse_vm_stat_val("Pages active: 12..."), 12);
    assert_eq!(parse_vm_stat_val("Pages active"), 0);
    assert_eq!(parse_vm_stat_val("Pages active: many."), 0);
    assert_eq!(parse_vm_stat_val("a: 5: 6"), 5);
}

#[test]
fn memsize_is_trimmed_and_parsed() {
    assert_eq!(parse_memsize("17179869184\n"), 17179869184);
    assert_eq!(parse_memsize("  42  "), 42);
    assert_eq!(parse_memsize("n/a"), 0);
    assert_eq!(parse_memsize(""), 0);
}

#[test]
fn lines_split_like_str_lines() {
    assert_eq!(lines_of("a\nb\r\nc"), vec!["a", "b", "c"]);
    assert_eq!(lines_of("a\n"), vec!["a"]);
    assert_eq!(lines_of(""), Vec::<String>::new());
    assert_eq!(lines_of("\n\n"), vec!["", ""]);
    assert_eq!(lines_of("x\r"), vec!["x\r"]);
}

#[test]
fn weight_files_are_recognised() {
    assert_eq!(weight_file_kind("model-q4.gguf"), WeightFileKind::Gguf);
    assert_eq!(weight_file_kind("model.safetensors"), WeightFileKind::Weights);
    assert_eq!(weight_file_kind("pytorch_model.bin"), WeightFileKind::Weights);
    assert_eq!(weight_file_kind("config.json"), WeightFileKind::Other);
}

#[test]
fn gguf_size_tolerance_is_five_percent() {
    assert!(gguf_size_matches(1000, 1000));
    assert!(gguf_size_matches(1050, 1000));
    assert!(gguf_size_matches(950, 1000));
    assert!(!gguf_size_matches(1051, 1000));
    assert!(!gguf_size_matches(949, 1000));
    assert!(entry_has_weights(WeightFileKind::Gguf, 0, 5));
    assert!(entry_has_weights(WeightFileKind::Weights, 1000, 5));
    assert!(!entry_has_weights(WeightFileKind::Other, 0, 5));
    assert!(!entry_has_weights(WeightFileKind::Gguf, 1000, 5));
}

#[test]
fn weight_check_threshold_and_hidden_entries() {
    assert!(!needs_weight_check(100 * 1024 * 1024));
    assert!(needs_weight_check(100 * 1024 * 1024 + 1));
    assert!(is_hidden_entry(".DS_Store"));
    assert!(!is_hidden_entry("model.gguf"));
}

#[test]
fn hex_colours_are_read() {
    assert_eq!(hex_channels("#ff8000"), (255, 128, 0));
    assert_eq!(hex_channels("1A2b3C"), (0x1a, 0x2b, 0x3c));
    assert_eq!(hex_channels("##102030"), (0x10, 0x20, 0x30));
    assert_eq!(hex_channels("#zz00+f"), (0, 0, 15));
    assert_eq!(hex_channels("#éa0b0"), (0, 0xa0, 0xb0));
}
