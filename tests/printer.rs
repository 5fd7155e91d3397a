use dnsseed::memory::{allocation_fits, TOTAL_MEM_LIMIT_BYTES};
use dnsseed::printer::{Printer, Stat, MAX_LINES};

#[test]
fn printer_colors_errors_and_keeps_last_lines() {
	let mut p = Printer::new();
	p.add_line("hello".to_string(), false);
	p.add_line("bad".to_string(), true);
	assert_eq!(p.lines(), &vec!["hello".to_string(), "\x1b[31mbad\x1b[0m".to_string()]);
	for i in 0..80 {
		p.add_line(format!("line {}", i), false);
	}
	assert_eq!(p.lines().len(), MAX_LINES);
	assert_eq!(p.lines()[0], "line 5");
	assert_eq!(p.lines()[MAX_LINES - 1], "line 79");
}

#[test]
fn printer_stats() {
	let mut p = Printer::new();
	p.set_stat(Stat::NewConnection);
	p.set_stat(Stat::NewConnection);
	p.set_stat(Stat::ConnectionClosed);
	p.set_stat(Stat::HeaderCount(700_000));
	p.set_stat(Stat::V4RoutingTableSize(12));
	p.set_stat(Stat::V6RoutingTableSize(34));
	assert_eq!(p.connection_count(), 1);
	assert_eq!(p.header_count(), 700_000);
	assert_eq!(p.v4_table_size(), 12);
	assert_eq!(p.v6_table_size(), 34);
	assert!(p.lines().is_empty());
}

#[test]
fn allocation_limit() {
	assert_eq!(TOTAL_MEM_LIMIT_BYTES, 1780 * 1024 * 1024);
	assert!(allocation_fits(0, TOTAL_MEM_LIMIT_BYTES));
	assert!(!allocation_fits(0, TOTAL_MEM_LIMIT_BYTES + 1));
	assert!(allocation_fits(TOTAL_MEM_LIMIT_BYTES - 10, 10));
	assert!(!allocation_fits(TOTAL_MEM_LIMIT_BYTES - 10, 11));
	assert!(!allocation_fits(usize::MAX, 1));
}
