use determine_preset::{normalize, parse_string, Cli, ColorMode, Determiner};

fn determiner(verbose: u8, color: ColorMode) -> Determiner {
    Determiner::new(Cli { input: None, color, verbose })
}

fn ranking_of(input: &str) -> Vec<(String, usize)> {
    let mut settings = parse_string(input);
    normalize(&mut settings);
    Determiner::default().closest_matches(&settings)
}

#[test]
fn test_encoding_params() {
    let input = "Encoding settings                        : cpuid=1111039 / frame-threads=4 / wpp / no-pmode / no-pme / no-psnr / no-ssim / log-level=2 / input-csp=1 / input-res=1860x1080 / interlace=0 / total-frames=0 / level-idc=0 / high-tier=1 / uhd-bd=0 / ref=5 / no-allow-non-conformance / no-repeat-headers / annexb / no-aud / no-eob / no-eos / no-hrd / info / hash=0 / temporal-layers=0 / open-gop / min-keyint=25 / keyint=250 / gop-lookahead=0 / bframes=8 / b-adapt=2 / b-pyramid / bframe-bias=0 / rc-lookahead=40 / lookahead-slices=0 / scenecut=40 / no-hist-scenecut / radl=0 / no-splice / no-intra-refresh / ctu=64 / min-cu-size=8 / rect / amp / max-tu-size=32 / tu-inter-depth=3 / tu-intra-depth=3 / limit-tu=0 / rdoq-level=2 / dynamic-rd=0.00 / no-ssim-rd / signhide / no-tskip / nr-intra=0 / nr-inter=0 / no-constrained-intra / strong-intra-smoothing / max-merge=5 / limit-refs=0 / no-limit-modes / me=3 / subme=4 / merange=57 / temporal-mvp / no-frame-dup / no-hme / weightp / weightb / no-analyze-src-pics / deblock=0:0 / sao / no-sao-non-deblock / rd=6 / selective-sao=4 / no-early-skip / rskip / no-fast-intra / no-tskip-fast / no-cu-lossless / b-intra / no-splitrd-skip / rdpenalty=0 / psy-rd=2.00 / psy-rdoq=1.00 / no-rd-refine / no-lossless / cbqpoffs=0 / crqpoffs=0 / rc=crf / crf=23.0 / qcomp=0.60 / qpstep=4 / stats-write=0 / stats-read=0 / ipratio=1.40 / pbratio=1.30 / aq-mode=2 / aq-strength=1.00 / cutree / zone-count=0 / no-strict-cbr / qg-size=32 / no-rc-grain / qpmax=69 / qpmin=0 / no-const-vbv / sar=0 / overscan=0 / videoformat=5 / range=0 / colorprim=1 / transfer=1 / colormatrix=1 / chromaloc=1 / chromaloc-top=0 / chromaloc-bottom=0 / display-window=0 / cll=0,0 / min-luma=0 / max-luma=1023 / log2-max-poc-lsb=8 / vui-timing-info / vui-hrd-info / slices=1 / no-opt-qp-pps / no-opt-ref-list-length-pps / no-multi-pass-opt-rps / scenecut-bias=0.05 / no-opt-cu-delta-qp / no-aq-motion / no-hdr10 / no-hdr10-opt / no-dhdr10-opt / no-idr-recovery-sei / analysis-reuse-level=0 / analysis-save-reuse-level=0 / analysis-load-reuse-level=0 / scale-factor=0 / refine-intra=0 / refine-inter=0 / refine-mv=1 / refine-ctu-distortion=0 / no-limit-sao / ctu-info=0 / no-lowpass-dct / refine-analysis-type=0 / copy-pic=1 / max-ausize-factor=1.0 / no-dynamic-refine / no-single-sei / no-hevc-aq / no-svt / no-field / qp-adaptation-range=1.00 / scenecut-aware-qp=0conformance-window-offsets / right=0 / bottom=0 / decoder-max-rate=0 / no-vbv-live-multi-pass / no-mcstf / no-sbrc";
    assert_eq!(Determiner::default().determine_preset_from_str(input), Ok("veryslow".to_string()));
    let input = "ctu=32 min-cu-size=8";
    assert_eq!(Determiner::default().determine_preset_from_str(input), Ok("superfast".to_string()));
    let input = "ctu=32 min-cu-size=8 bframes=8";
    assert_eq!(Determiner::default().determine_preset_from_str(input), Err("No matching presets found. Closest matches:\n:[(\"placebo\", 2), (\"veryslow\", 2), (\"slower\", 2), (\"superfast\", 2), (\"slow\", 1), (\"medium\", 1), (\"fast\", 1), (\"faster\", 1), (\"veryfast\", 1), (\"ultrafast\", 1)]".to_string()));
    let input = "ctu=32";
    assert_eq!(Determiner::default().determine_preset_from_str(input), Err("Multiple matching presets found: [\"ultrafast\", \"superfast\"]".to_string()));
}

#[test]
fn unique_match_superfast() {
    let d = Determiner::default();
    assert_eq!(d.determine_preset_from_str("ctu=32 min-cu-size=8"), Ok("superfast".to_string()));
}

#[test]
fn ambiguous_match_lists_catalog_order() {
    let d = Determiner::default();
    assert_eq!(
        d.determine_preset_from_str("ctu=32"),
        Err("Multiple matching presets found: [\"ultrafast\", \"superfast\"]".to_string())
    );
}

#[test]
fn empty_input_matches_every_preset() {
    let d = Determiner::default();
    assert_eq!(
        d.determine_preset_from_str("   no pairs here  "),
        Err("Multiple matching presets found: [\"ultrafast\", \"superfast\", \"veryfast\", \"faster\", \"fast\", \"medium\", \"slow\", \"slower\", \"veryslow\", \"placebo\"]".to_string())
    );
}

#[test]
fn unknown_keys_never_exclude_a_preset() {
    let d = Determiner::default();
    assert_eq!(d.determine_preset_from_str("ctu=32 min-cu-size=8 foo=bar crf=23.0"), Ok("superfast".to_string()));
}

#[test]
fn ranking_ties_come_in_reverse_catalog_order() {
    let ranking = ranking_of("ctu=32 min-cu-size=8 bframes=8");
    let names: Vec<&str> = ranking.iter().map(|(n, _)| n.as_str()).collect();
    assert_eq!(
        names,
        vec!["placebo", "veryslow", "slower", "superfast", "slow", "medium", "fast", "faster", "veryfast", "ultrafast"]
    );
    let counts: Vec<usize> = ranking.iter().map(|(_, c)| *c).collect();
    assert_eq!(counts, vec![2, 2, 2, 2, 1, 1, 1, 1, 1, 1]);
}

#[test]
fn ranking_with_no_agreement_keeps_every_preset() {
    let ranking = ranking_of("foo=1");
    assert_eq!(ranking.len(), 10);
    assert!(ranking.iter().all(|(_, c)| *c == 0));
    assert_eq!(ranking[0].0, "placebo");
    assert_eq!(ranking[9].0, "ultrafast");
}

#[test]
fn ranking_covers_catalog_once_with_bounded_counts() {
    let input = "ctu=64 bframes=8 ref=5 subme=4 zzz=1";
    let ranking = ranking_of(input);
    assert_eq!(ranking.len(), 10);
    let mut names: Vec<String> = ranking.iter().map(|(n, _)| n.clone()).collect();
    names.sort();
    names.dedup();
    assert_eq!(names.len(), 10);
    assert!(ranking.iter().all(|(_, c)| *c <= 5));
    assert_eq!(ranking[0], ("veryslow".to_string(), 4));
    assert!(ranking.windows(2).all(|w| w[0].1 >= w[1].1));
}

#[test]
fn adding_a_pair_narrows_the_matches() {
    let d = Determiner::default();
    let wide = d.matching_presets(&parse_string("ctu=64"));
    let narrow = d.matching_presets(&parse_string("ctu=64 bframes=8"));
    assert_eq!(wide.len(), 8);
    assert_eq!(narrow, vec!["slower".to_string(), "veryslow".to_string(), "placebo".to_string()]);
    assert!(narrow.iter().all(|n| wide.contains(n)));
}

#[test]
fn repeated_identification_is_identical() {
    let d = Determiner::default();
    let input = "ctu=32 min-cu-size=8 bframes=8";
    let first = d.determine_preset_from_str(input);
    let second = d.determine_preset_from_str(input);
    assert_eq!(first, second);
    assert!(first.is_err());
}

#[test]
fn normalizer_drops_me_and_reads_zero_slices_as_one() {
    let mut s = parse_string("me=3 lookahead-slices=0 ref=5");
    normalize(&mut s);
    assert!(s.get("me").is_none());
    assert_eq!(s.get("lookahead-slices").map(|v| v.as_str()), Some("1"));
    assert_eq!(s.get("ref").map(|v| v.as_str()), Some("5"));
    assert_eq!(s.len(), 2);
}

#[test]
fn normalizer_keeps_other_slice_counts() {
    let mut s = parse_string("lookahead-slices=4");
    normalize(&mut s);
    assert_eq!(s.get("lookahead-slices").map(|v| v.as_str()), Some("4"));
}

#[test]
fn lookahead_slices_zero_matches_presets_with_one() {
    let d = Determiner::default();
    assert_eq!(
        d.determine_preset_from_str("lookahead-slices=0 rc-lookahead=60"),
        Ok("placebo".to_string())
    );
}

#[test]
fn me_is_ignored_by_identification() {
    let d = Determiner::default();
    assert_eq!(d.determine_preset_from_str("me=99 ctu=32 min-cu-size=8"), Ok("superfast".to_string()));
}

#[test]
fn verbose_no_match_shows_comparison_table() {
    let d = determiner(1, ColorMode::Never);
    let settings = parse_string("ctu=32 min-cu-size=8 bframes=8");
    let table = d.partially_matching_presets(&settings);
    let expected = format!(
        "{:<11} | {:<5} | {:<7} | {:<8} | {:<6}\n{}\n{:<11} | {:<5} | {:<7} | {:<8} | {:<6}\n{:<11} | {:<5} | {:<7} | {:<8} | {:<6}\n{:<11} | {:<5} | {:<7} | {:<8} | {:<6}\n",
        "", "input", "placebo", "veryslow", "slower",
        "-".repeat(49),
        "ctu", "32", "64", "64", "64",
        "min-cu-size", "8", "8", "8", "8",
        "bframes", "8", "8", "8", "8",
    );
    assert_eq!(table, expected);
    assert_eq!(
        d.determine_preset(&settings),
        Err(format!("No matching presets found. Partial matches:\n\n{}", expected))
    );
}

#[test]
fn comparison_table_skips_unknown_parameters() {
    let d = determiner(1, ColorMode::Never);
    let settings = parse_string("foo=1 ctu=16");
    let table = d.comparison_table(&settings, false);
    let lines: Vec<&str> = table.lines().collect();
    assert_eq!(lines.len(), 3);
    assert!(lines[2].starts_with("ctu | 16    | "));
    assert!(!table.contains("foo"));
}

#[test]
fn full_comparison_table_shows_every_parameter() {
    let d = determiner(2, ColorMode::Never);
    let settings = parse_string("foo=1 ctu=16");
    let table = d.comparison_table(&settings, false);
    let lines: Vec<&str> = table.lines().collect();
    // header, dashes, the two observed names, then the 30 other reference names
    assert_eq!(lines.len(), 2 + 2 + 30);
    assert!(lines[2].starts_with("foo "));
    assert!(lines[3].starts_with("ctu "));
    assert!(lines[4].starts_with("min-cu-size "));
    assert!(lines[4].contains("| -    "));
}

#[test]
fn colored_table_keeps_alignment_of_texts() {
    let d = determiner(1, ColorMode::Always);
    let settings = parse_string("ctu=32 min-cu-size=8 bframes=8");
    let table = d.partially_matching_presets(&settings);
    let mut plain = String::new();
    let mut chars = table.chars();
    while let Some(c) = chars.next() {
        if c == '\u{1b}' {
            for d in chars.by_ref() {
                if d == 'm' {
                    break;
                }
            }
        } else {
            plain.push(c);
        }
    }
    let never = determiner(1, ColorMode::Never).partially_matching_presets(&settings);
    assert_eq!(plain, never);
}
