use appmanager::shell_paths::{analyze, analyze_with_environment, PathAnalysis};
use appmanager::shell_sources::SnapshotEnvironment;

fn has(values: &[String], wanted: &str) -> bool {
    values.iter().any(|value| value == wanted)
}

fn strings(values: &[&str]) -> Vec<String> {
    values.iter().map(|value| value.to_string()).collect()
}

fn pairs(values: &[(&str, &str)]) -> Vec<(String, String)> {
    values
        .iter()
        .map(|(key, value)| (key.to_string(), value.to_string()))
        .collect()
}

fn scan(source: &str) -> PathAnalysis {
    analyze(source, &pairs(&[("directory", "/roms")]), "/roms/ports/中文.sh")
}

fn analyze_fixture(source: &str, env: &SnapshotEnvironment) -> PathAnalysis {
    analyze_with_environment(
        source,
        &pairs(&[
            ("directory", "/roms"),
            ("HOME", "/root"),
            ("LD_LIBRARY_PATH", ""),
        ]),
        "/roms/ports/中文.sh",
        env,
    )
}

#[test]
fn runtime_aliases_use_only_the_explicit_snapshot() {
    let env = SnapshotEnvironment {
        complete: true,
        links: pairs(&[
            ("/virtual/card", "/virtual/real"),
            ("/virtual/real/libs/escape.squashfs", "/outside/image.squashfs"),
            ("/cycle", "/cycle"),
        ]),
        ..Default::default()
    };
    let result = scan(
        "A=/virtual/card/libs/godot.squashfs\nB=/virtual/card/libs/escape.squashfs\nC=/cycle/loop.squashfs\n",
    );
    assert_eq!(
        result.runtime_dependencies(Some("/virtual/real/libs"), &env),
        strings(&["godot"])
    );
    assert!(result
        .runtime_dependencies(Some("/virtual/real/libs"), &SnapshotEnvironment::default())
        .is_empty());
}

#[test]
fn path_list_detection_preserves_literal_colon_filename_references() {
    let result = scan("/roms/ports/Game:Edition/game\n");
    assert!(has(&result.paths, "/roms/ports/Game:Edition/game"));
}

#[test]
fn follows_arbitrary_names_and_input_configuration() {
    let result = scan(
        "ROOT=/$directory/ports\nOTHER=\"$ROOT/goldminer\"\ncd \"$OTHER\"\ngptokeyb game -c './keyboard.gptk'\n./game",
    );
    assert!(!result.uncertain(), "{:?}", result.diagnostics);
    assert!(has(&result.paths, "/roms/ports/goldminer/keyboard.gptk"));
    assert!(has(&result.working_directories, "/roms/ports/goldminer"));
}

#[test]
fn assignments_are_ordered_and_single_quotes_are_literal() {
    let result = scan("A=/roms/ports/old\nA=/roms/ports/new\ncd \"$A\"\nprintf '%s' '$A/literal'");
    assert!(has(&result.working_directories, "/roms/ports/new"));
    assert!(!has(&result.working_directories, "/roms/ports/old"));
    // Printed strings are not file references.
    assert!(!has(&result.paths, "/roms/ports/new/$A/literal"));
}

#[test]
fn models_dirname_without_executing() {
    let result = scan("CUSTOM=\"$(dirname \"$0\")/game\"\ncd \"$CUSTOM\"");
    assert!(!result.uncertain(), "{:?}", result.diagnostics);
    assert!(has(&result.working_directories, "/roms/ports/game"));
}

#[test]
fn unknown_never_becomes_empty_or_successful_execution() {
    for source in [
        "cd \"$UNKNOWN/game\"",
        "X=$(touch /tmp/never-run)\ncd \"$X\"",
        "source /some/control.txt\ncd \"$directory/ports/game\"",
        "if test x; then X=/a; else X=/b; fi\ncd \"$X\"",
        "cd \"unterminated",
    ] {
        assert!(scan(source).uncertain(), "{source}");
    }
}

#[test]
fn tracks_shared_directories() {
    let result = scan(
        "A=/roms/ports/counter-strike\nB=/roms/ports/Half-Life\ncd \"$A\"\nbind_directories \"$B/valve\" \"$A/valve\"",
    );
    assert!(has(&result.paths, "/roms/ports/Half-Life/valve"));
    assert!(has(&result.paths, "/roms/ports/counter-strike/valve"));
}

#[test]
fn defaults_and_empty_assignments() {
    let result = scan("X=''\nY=${X:-/roms/ports/fallback}\ncd \"$Y\"");
    assert!(!result.uncertain(), "{:?}", result.diagnostics);
    assert!(has(&result.working_directories, "/roms/ports/fallback"));
}

#[test]
fn bounds_expansion_and_rejects_unmodeled_assignment_semantics() {
    let mut source = String::from("X=abcdef\n");
    for _ in 0..30 {
        source.push_str("X=\"$X$X\"\n");
    }
    assert!(scan(&source).uncertain());
    let appended = scan("X=/ports/a\nX+=/b\ncd \"$X\"");
    assert!(!appended.uncertain());
    assert!(has(&appended.working_directories, "/ports/a/b"));
    assert!(scan("X='/ports/a b'\ncd $X").uncertain());
}

#[test]
fn shared_syntax_never_reuses_evaluated_variables_or_source_contents() {
    let mut env = SnapshotEnvironment::default();
    for value in ["/first", "/second"] {
        env.files = pairs(&[("/helper.txt", &format!("GAME={value}"))]);
        let result = analyze_with_environment(
            "source /helper.txt\ncd \"$GAME\"",
            &Vec::new(),
            "/game.sh",
            &env,
        );
        assert_eq!(result.working_directories, strings(&[value]));
        let result = analyze_with_environment(
            "cd \"$GAME\"",
            &pairs(&[("GAME", value)]),
            "/game.sh",
            &env,
        );
        assert_eq!(result.working_directories, strings(&[value]));
    }
}

#[test]
fn passive_wait_preserves_paths_and_runtime_evidence_without_executing() {
    let env = SnapshotEnvironment {
        complete: true,
        ..Default::default()
    };
    let result = analyze_fixture(
        "GAME=/roms/ports/game\nIMAGE=/pm/libs/engine.squashfs\nsleep \"$DELAY\"\nwhile kill -0 \"$GAME_PID\" 2>/dev/null; do sleep 1; done\ncd \"$GAME\"\nLD_LIBRARY_PATH=\"$IMAGE\"\n",
        &env,
    );
    assert!(!result.uncertain(), "{:?}", result.diagnostics);
    assert!(result
        .notes
        .iter()
        .any(|note| note.contains("path-independent wait")));
    assert!(has(&result.working_directories, "/roms/ports/game"));
    assert_eq!(
        result.runtime_dependencies(Some("/pm/libs"), &env),
        strings(&["engine"])
    );
}

#[test]
fn loops_with_possible_path_or_shell_effects_remain_blockers() {
    for body in [
        "GAME=/other",
        "cd /other",
        "source /helper.txt",
        "LD_LIBRARY_PATH=/other/libs",
        "runtime=other",
        "mount /image /target",
        "sleep $(source /helper.txt)",
        "sleep ${GAME:=/other}",
        "sleep 1 > /helper.txt",
        "sleep 1 2>\"$LOG\"",
        "eval \"$CODE\"",
        "custom_wait",
        "wait -p GAME",
        "kill -9 \"$GAME_PID\"",
    ] {
        let text = format!("GAME=/roms/ports/game\nwhile true; do {body}; done\ncd \"$GAME\"\n");
        let result = analyze_fixture(&text, &SnapshotEnvironment::default());
        assert!(result.uncertain(), "{body}");
        assert!(
            !has(&result.working_directories, "/roms/ports/game"),
            "{body}"
        );
    }
    for prefix in ["sleep() { cd /other; }", "kill() { source /helper.txt; }"] {
        let text = format!("{prefix}\nwhile kill -0 \"$PID\"; do sleep 1; done\n");
        assert!(analyze_fixture(&text, &SnapshotEnvironment::default()).uncertain());
    }
}

#[test]
fn passive_wait_does_not_preserve_a_stale_success_status() {
    let result = analyze_fixture(
        "true\nwhile kill -0 \"$PID\"; do sleep 1; done && cd /first || cd /second\n",
        &SnapshotEnvironment::default(),
    );
    assert!(has(&result.working_directories, "/first"));
    assert!(has(&result.working_directories, "/second"));
}

#[test]
fn official_dialog_eval_idiom_is_interpreted_without_a_shell() {
    let script = r#"SDL_VIDEODRIVER=''
SAVE_CLEAN_ENV=''
for VAR in SDL_VIDEODRIVER; do
 eval "VAL=\${$VAR+set}"
 if [ "$VAL" = "set" ]; then
   eval "SAVE_CLEAN_ENV=\"$SAVE_CLEAN_ENV $VAR=\${$VAR}\""
 fi
done
cd /roms/ports/game
"#;
    let r = analyze_fixture(script, &SnapshotEnvironment::default());
    assert!(!r.uncertain(), "{:?}", r.diagnostics);
}

#[test]
fn cases_unset_defaults_and_command_prefixes_preserve_shell_meaning() {
    let source = r#"CFW=MiniLoong
case "$CFW" in
 TrimUI) GAME=/wrong ;;
 MiniLoong|Other) GAME=/roms/ports/game ;;
 *) GAME=/unknown ;;
esac
unset EMPTY
A=${EMPTY-/roms/ports/fallback}
B=${EMPTY+bad}
CMD='cd /roms/ports/game'
$CMD
PREFIX=''
$PREFIX ./game -c "$A"
"#;
    let r = analyze_fixture(source, &SnapshotEnvironment::default());
    assert!(!r.uncertain(), "{:?}", r.diagnostics);
    assert!(has(&r.working_directories, "/roms/ports/game"));
    assert!(!has(&r.declared_paths, "/wrong"));
    assert!(has(&r.paths, "/roms/ports/fallback"));
}

#[test]
fn traps_sources_and_short_circuit_control_flow_cannot_hide_references() {
    let env = SnapshotEnvironment {
        files: pairs(&[("/exit.txt", "exit 0\n")]),
        ..Default::default()
    };
    let r = analyze_fixture(
        "trap 'cd /roms/ports/trap-data' EXIT\nif true || source /missing.txt; then cd /roms/ports/game; fi\nsource /exit.txt\ncd /never\n",
        &env,
    );
    assert!(!r.uncertain(), "{:?}", r.diagnostics);
    assert!(has(&r.working_directories, "/roms/ports/trap-data"));
    assert!(!has(&r.working_directories, "/never"));
    let modified = SnapshotEnvironment {
        files: pairs(&[("/helper.txt", "GAME=/old")]),
        ..Default::default()
    };
    assert!(analyze_fixture(
        "echo 'GAME=/new' > /helper.txt\nsource /helper.txt\ncd \"$GAME\"",
        &modified
    )
    .uncertain());
    assert!(analyze_fixture("$UNKNOWN\ncd /game", &env).uncertain());
}

#[test]
fn quote_whitespace_runtime_and_output_classification() {
    let r = analyze_fixture(
        "A=/roms/ports\nB='Space Game'\nGAME=\"$A/$B\"\ncd \"$GAME\"\nruntime=godot_4\nOTHER=\"/pm/libs/mono.squashfs\"\nexec > >(tee \"$GAME/log.txt\") 2>&1\n",
        &SnapshotEnvironment::default(),
    );
    assert!(!r.uncertain(), "{:?}", r.diagnostics);
    assert_eq!(r.runtime_names, strings(&["godot_4"]));
    assert_eq!(
        r.runtime_dependencies(
            Some("/pm/libs"),
            &SnapshotEnvironment {
                complete: true,
                ..Default::default()
            }
        ),
        strings(&["mono"])
    );
    assert!(has(&r.output_paths, "/roms/ports/Space Game/log.txt"));
    assert!(!has(&r.paths, "/roms/ports/Space Game/log.txt"));
    assert!(!r.output_paths.iter().any(|p| p.ends_with("/1")));
}

#[test]
fn recursive_txt_source_shares_variables_functions_and_restores_positionals() {
    let env = SnapshotEnvironment {
        files: pairs(&[
            (
                "/pm/control.txt",
                "CFW_NAME=test\nsource /pm/nested.txt\nchoose() { local X=/ignore; GAME=\"$1\"; }\n",
            ),
            ("/pm/nested.txt", "BASE=/roms/ports\n"),
            ("/pm/mod_test.txt", "choose \"$BASE/游戏\"\n"),
        ]),
        complete: true,
        ..Default::default()
    };
    let result = analyze_fixture(
        "source /pm/control.txt\nsource /pm/mod_${CFW_NAME}.txt\ncd \"$GAME\"\n",
        &env,
    );
    assert!(!result.uncertain(), "{:?}", result.diagnostics);
    assert_eq!(result.sources.len(), 3);
    assert!(has(&result.working_directories, "/roms/ports/游戏"));
}

#[test]
fn unrelated_unknown_values_and_logging_do_not_poison_game_path() {
    let r = analyze_fixture(
        "NOISE=$(date)\nGAME=/roms/ports/foo\ncd \"$GAME\"\necho \"$NOISE\" > \"$GAME/log.txt\"\n",
        &SnapshotEnvironment::default(),
    );
    assert!(!r.uncertain(), "{:?}", r.diagnostics);
    assert!(has(&r.output_paths, "/roms/ports/foo/log.txt"));
    assert!(!has(&r.paths, "/roms/ports/foo/log.txt"));
}

#[test]
fn substitutions_keep_file_references_even_after_an_unknown_string_part() {
    let r = analyze_fixture(
        "NOTE=\"$UNKNOWN $(cat /roms/ports/shared/data.txt)\"\ncd /roms/ports/game\n",
        &SnapshotEnvironment::default(),
    );
    assert!(has(&r.paths, "/roms/ports/shared/data.txt"));
    assert!(has(&r.working_directories, "/roms/ports/game"));
}

#[test]
fn variable_and_source_byte_limits_fail_closed() {
    let source = (0..2100).map(|n| format!("V{n}=x\n")).collect::<String>();
    assert!(analyze_fixture(&source, &SnapshotEnvironment::default()).uncertain());
    let large = "x".repeat(appmanager::shell_sources::MAX_FILE_BYTES + 1);
    let env = SnapshotEnvironment {
        files: pairs(&[("/large.txt", &large)]),
        ..Default::default()
    };
    assert!(analyze_fixture("source /large.txt", &env).uncertain());
}

#[test]
fn uncertain_defaults_and_combined_redirects_do_not_hide_source_changes() {
    let env = SnapshotEnvironment {
        files: pairs(&[("/helper.txt", "cd /roms/ports/old")]),
        ..Default::default()
    };
    assert!(analyze_fixture(
        "NOTE=${UNKNOWN:-$(touch /helper.txt)}\nsource /helper.txt",
        &env
    )
    .uncertain());
    assert!(analyze_fixture("echo changed >& /helper.txt\nsource /helper.txt", &env).uncertain());
    assert!(analyze_fixture("GAME=''\nOTHER=${GAME:=$UNKNOWN}\ncd \"$GAME/data\"", &env).uncertain());
}

#[test]
fn dependency_on_unknown_value_and_divergent_branches_remains_unknown() {
    let env = SnapshotEnvironment::default();
    assert!(analyze_fixture("BASE=$(date)\ncd \"$BASE/game\"", &env).uncertain());
    assert!(analyze_fixture(
        "if [ -d /unknown ]; then GAME=/a; else GAME=/b; fi\ncd \"$GAME\"",
        &env
    )
    .uncertain());
    let r = analyze_fixture(
        "if [ -d /unknown ]; then NOISE=a; else NOISE=b; fi\ncd /roms/ports/foo",
        &env,
    );
    assert!(!r.uncertain(), "{:?}", r.diagnostics);
}

#[test]
fn known_device_file_selects_one_branch() {
    let env = SnapshotEnvironment {
        directories: strings(&["/card2"]),
        complete: true,
        ..Default::default()
    };
    let r = analyze_fixture(
        "if [ -d /card1 ]; then GAME=/card1/game; elif [ -d /card2 ]; then GAME=/card2/game; else GAME=/wrong; fi\ncd \"$GAME\"",
        &env,
    );
    assert!(!r.uncertain(), "{:?}", r.diagnostics);
    assert_eq!(r.working_directories, strings(&["/card2/game"]));
    let r = analyze_fixture(
        "if false; then GAME=/wrong; elif false; then GAME=/wrong2; elif false; then GAME=/wrong3; else GAME=/fallback; fi\ncd \"$GAME\"",
        &env,
    );
    assert!(!r.uncertain(), "{:?}", r.diagnostics);
    assert_eq!(r.working_directories, strings(&["/fallback"]));
}

#[test]
fn libraries_inputs_and_wrapped_commands_are_separate() {
    let r = analyze_fixture(
        "GAME=/roms/ports/foo\ncd \"$GAME\"\nexport LD_LIBRARY_PATH=\"$GAME/libs:/opt/shared:\"\nexport LD_PRELOAD=\"$GAME/hook.so libsystem.so\"\nRUN=\"env LD_LIBRARY_PATH=/runtime/lib /runtime/game\"\n$RUN \"$GAME/data\"\nGPTOKEYB=/pm/gptokeyb\n$GPTOKEYB game -c ./keys.gptk\n",
        &SnapshotEnvironment::default(),
    );
    assert!(!r.uncertain(), "{:?}", r.diagnostics);
    for p in [
        "/roms/ports/foo/libs",
        "/opt/shared",
        "/roms/ports/foo",
        "/runtime/lib",
    ] {
        assert!(has(&r.library_paths, p), "{p}");
    }
    assert!(has(&r.preload_libraries, "libsystem.so"));
    assert!(has(&r.input_configs, "/roms/ports/foo/keys.gptk"));
    assert!(!r.paths.iter().any(|p| p.contains("LD_LIBRARY_PATH=")));
}

#[test]
fn cycles_missing_sources_and_function_recursion_fail_closed() {
    let env = SnapshotEnvironment {
        files: pairs(&[("/a.txt", "source /b.txt"), ("/b.txt", "source /a.txt")]),
        ..Default::default()
    };
    assert!(analyze_fixture("source /a.txt", &env).uncertain());
    assert!(analyze_fixture("source /missing.txt\ncd /roms/ports/foo", &env).uncertain());
    assert!(analyze_fixture("f() { f; }; f", &env).uncertain());
}
