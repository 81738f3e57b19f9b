use pjsekai_soundgen_core::console::{
    ask, colored_log, error, info, rgb, strip_colors, title, warning,
};
use pjsekai_soundgen_core::server::{decompress, Server, ServerError};
use pjsekai_soundgen_core::sonolus::Srl;
use pjsekai_soundgen_core::text::{decimal, same_text, starts_with};
use std::io::Write;

#[test]
fn guess_knows_potato_leaves() {
    let server = Server::guess("ptlv-abc").unwrap();
    assert_eq!(server.id, "potato_leaves");
    assert_eq!(server.name, "Potato Leaves");
    assert_eq!(server.color, 0x88cb7f);
    assert_eq!(server.url, "https://ptlv.sevenc7c.com");
}

#[test]
fn guess_knows_chart_cyanvas() {
    let server = Server::guess("chcy-123").unwrap();
    assert_eq!(server.id, "chart_cyanvas");
    assert_eq!(server.name, "Chart Cyanvas");
    assert_eq!(server.color, 0x83ccd2);
    assert_eq!(server.url, "https://cc.sevenc7c.com");
}

#[test]
fn guess_refuses_other_prefixes() {
    assert!(matches!(Server::guess("frpt-abc"), Err(ServerError::UnknownServer)));
    assert!(matches!(Server::guess("ptlv"), Err(ServerError::UnknownServer)));
    assert!(matches!(Server::guess(""), Err(ServerError::UnknownServer)));
    assert!(matches!(Server::guess("xptlv-"), Err(ServerError::UnknownServer)));
    assert_eq!(ServerError::UnknownServer.message(), "サーバーを特定できませんでした。");
}

#[test]
fn merge_url_keeps_absolute_addresses() {
    let server = Server::guess("ptlv-abc").unwrap();
    assert_eq!(server.merge_url("http://example.com//a"), "http://example.com//a");
    assert_eq!(server.merge_url("https://example.com/a"), "https://example.com/a");
}

#[test]
fn merge_url_joins_and_collapses_slashes() {
    let server = Server::guess("ptlv-abc").unwrap();
    // every pair of slashes becomes one, the pair behind the scheme too
    assert_eq!(server.merge_url("/sonolus/repository/x"), "https:/ptlv.sevenc7c.com/sonolus/repository/x");
    assert_eq!(server.merge_url("a//b"), "https:/ptlv.sevenc7c.com/a/b");
    assert_eq!(server.merge_url("a///b"), "https:/ptlv.sevenc7c.com/a//b");
    assert_eq!(server.merge_url(""), "https:/ptlv.sevenc7c.com/");
}

#[test]
fn level_url_and_cache_key_are_put_together() {
    let server = Server::guess("chcy-1").unwrap();
    assert_eq!(server.level_url("chcy-1"), "https://cc.sevenc7c.com/sonolus/levels/chcy-1");
    let srl = Srl { hash: "abcdef".to_string(), url: "/x".to_string() };
    assert_eq!(server.cache_key(&srl), "chart_cyanvas-abcdef");
}

#[test]
fn decompress_unpacks_gzip() {
    let mut encoder = flate2::write::GzEncoder::new(Vec::new(), flate2::Compression::default());
    encoder.write_all(b"{\"bgmOffset\":0,\"entities\":[]}").unwrap();
    let packed = encoder.finish().unwrap();
    assert_ne!(packed, b"{\"bgmOffset\":0,\"entities\":[]}".to_vec());
    assert_eq!(decompress(&packed).unwrap(), b"{\"bgmOffset\":0,\"entities\":[]}".to_vec());
}

#[test]
fn decompress_refuses_what_is_no_gzip() {
    assert!(matches!(decompress(b"plain text"), Err(ServerError::NotGzip)));
    assert!(matches!(decompress(&[]), Err(ServerError::NotGzip)));
}

#[test]
fn log_lines_carry_their_colours() {
    assert_eq!(error("failed", true), "\x1b[31mX) \x1b[0mfailed");
    assert_eq!(warning("careful", true), "\x1b[33m!) \x1b[0mcareful");
    assert_eq!(info("done", true), "\x1b[36mi) \x1b[0mdone");
    assert_eq!(ask("which?", true), "\x1b[32m?) \x1b[0mwhich?");
    assert_eq!(colored_log(">", "msg", "\x1b[35m", true), "\x1b[35m>) \x1b[0mmsg");
}

#[test]
fn log_lines_lose_their_colours_without_ansi() {
    assert_eq!(error("failed", false), "X) failed");
    assert_eq!(warning("careful", false), "!) careful");
    assert_eq!(info("\x1b[38;2;136;203;127mPotato Leaves\x1b[0m から", false), "i) Potato Leaves から");
    assert_eq!(ask("which?", false), "?) which?");
}

#[test]
fn text_helpers_compare_by_characters() {
    assert!(same_text("通常タップ", "通常タップ"));
    assert!(!same_text("通常タップ", "通常フリック"));
    assert!(!same_text("abc", "abcd"));
    assert!(same_text("", ""));
    assert!(starts_with("ptlv-1", "ptlv-"));
    assert!(starts_with("金タップ", "金"));
    assert!(!starts_with("pt", "ptlv-"));
    assert!(starts_with("anything", ""));
}

#[test]
fn decimal_writes_numbers_without_leading_zeros() {
    assert_eq!(decimal(0), "0");
    assert_eq!(decimal(7), "7");
    assert_eq!(decimal(10), "10");
    assert_eq!(decimal(1234567890), "1234567890");
    assert_eq!(decimal(usize::MAX), usize::MAX.to_string());
}

#[test]
fn rgb_writes_the_three_channels() {
    assert_eq!(rgb(0x88cb7f), "\x1b[38;2;136;203;127m");
    assert_eq!(rgb(0), "\x1b[38;2;0;0;0m");
    assert_eq!(rgb(0xffffff), "\x1b[38;2;255;255;255m");
    // what lies above the three bytes goes to red
    assert_eq!(rgb(0x1000000), "\x1b[38;2;256;0;0m");
    assert_eq!(rgb(-1), "\x1b[38;2;-1;255;255m");
    assert_eq!(rgb(i32::MIN), "\x1b[38;2;-32768;0;0m");
    assert_eq!(rgb(i32::MAX), "\x1b[38;2;32767;255;255m");
}

#[test]
fn strip_colors_takes_whole_codes_only() {
    assert_eq!(strip_colors("\x1b[31mX) \x1b[0mfailed"), "X) failed");
    assert_eq!(strip_colors("\x1b[38;2;136;203;127m金\x1b[m"), "金");
    assert_eq!(strip_colors("plain"), "plain");
    assert_eq!(strip_colors(""), "");
    // no letter m behind the digits: no code
    assert_eq!(strip_colors("\x1b[31"), "\x1b[31");
    assert_eq!(strip_colors("\x1b[1;2x"), "\x1b[1;2x");
    assert_eq!(strip_colors("\x1b31m"), "\x1b31m");
    assert_eq!(strip_colors("\x1b[\x1b[0mm"), "\x1b[m");
    assert_eq!(strip_colors("a\x1b[0m\x1b[1mb\x1b["), "ab\x1b[");
}

#[test]
fn title_names_the_program_and_its_version() {
    let plain = title("1.2.3", false);
    let lines: Vec<&str> = plain.lines().collect();
    assert_eq!(lines.len(), 6);
    assert_eq!(lines[0], "== pjsekai-soundgen-rust ------------------------------------------------------");
    assert_eq!(lines[1], "    pjsekai-soundgen-rust / Rust版プロセカ風譜面音声生成ツール");
    assert_eq!(lines[2], "    Version: 1.2.3");
    assert_eq!(lines[3], "    Developed by 名無し｡(@sevenc-nanashi)");
    assert_eq!(lines[4], "    https://github.com/sevenc-nanashi/pjsekai-soundgen-rust");
    assert_eq!(lines[5], "-------------------------------------------------------------------------------");
    let coloured = title("1.2.3", true);
    assert!(coloured.starts_with("\x1b[38;2;0;181;201m== pjsekai-soundgen-rust"));
    assert!(coloured.contains("    Version: \x1b[38;2;15;110;163m1.2.3\x1b[0m\n"));
    assert!(coloured.ends_with("-\x1b[0m"));
    assert_eq!(strip_colors(&coloured), plain);
}
