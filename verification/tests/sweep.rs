use workflow_core::error::WorkflowError;
use workflow_core::sweep::{
    build_all_tasks, build_one_task, check_output, fill_parameters, replace_text, split_values,
    ParamValue, SweepConfig,
};
use workflow_core::task::ExecutionMode;

fn value(short: &str, full: &str) -> ParamValue {
    ParamValue { short: short.to_string(), full: full.to_string() }
}

fn config(local: bool) -> SweepConfig {
    SweepConfig {
        local,
        command: "castep.mpi".to_string(),
        processes: 7,
        seed: "NiO".to_string(),
    }
}

#[test]
fn lists_are_split_at_commas() {
    for list in ["", ",", "0.0,0.7", " 1 , 2", "a,,b,", "\u{e9},\u{4e16}"] {
        let expected: Vec<&str> = list.split(',').collect();
        assert_eq!(split_values(list), expected);
    }
}

#[test]
fn occurrences_are_replaced_from_the_left() {
    for (text, pattern, with) in [
        ("", "a", "b"),
        ("aaa", "aa", "b"),
        ("banana", "an", ""),
        ("banana", "ana", "ana-ana"),
        ("1.5.", ".", "p"),
        ("\u{e9}x\u{e9}", "\u{e9}", "e"),
        ("short", "longer than the text", "x"),
    ] {
        assert_eq!(replace_text(text, pattern, with), text.replace(pattern, with));
    }
}

#[test]
fn a_local_task_runs_under_mpi() {
    let point = build_one_task(
        &config(true),
        &value("0.7", "0.7"),
        &value("0.30", "0.3"),
        &value("2.0", "2"),
    );
    assert_eq!(point.task.id, "beta0p7_gamma0p30_spin2p0");
    assert!(point.task.setup && point.task.collect);
    assert!(point.task.dependencies.is_empty());
    assert_eq!((point.beta.as_str(), point.gamma.as_str(), point.spin_amp.as_str()), ("0.7", "0.3", "2"));
    match &point.task.mode {
        ExecutionMode::Direct { command, args, env, timeout_nanos } => {
            assert_eq!(command, "mpirun");
            assert_eq!(*args, vec!["-np", "7", "castep.mpi", "NiO"]);
            assert_eq!(*env, vec![("OMP_NUM_THREADS".to_string(), "1".to_string())]);
            assert!(timeout_nanos.is_none());
        }
        ExecutionMode::Queued => panic!("the task is local"),
    }
}

#[test]
fn a_task_that_is_not_local_is_queued() {
    let v = value("0.0", "0");
    let point = build_one_task(&config(false), &v, &v, &v);
    assert!(matches!(point.task.mode, ExecutionMode::Queued));
}

#[test]
fn there_is_a_task_for_every_combination() {
    let betas = vec![value("0.0", "0"), value("0.7", "0.7")];
    let gammas = vec![value("0.30", "0.3"), value("0.70", "0.7"), value("1.00", "1")];
    let spin_amps = vec![value("0.5", "0.5"), value("2.0", "2")];
    let tasks = build_all_tasks(&config(true), &betas, &gammas, &spin_amps).unwrap();
    let ids: Vec<&str> = tasks.iter().map(|point| point.task.id.as_str()).collect();
    assert_eq!(ids.len(), 12);
    assert_eq!(
        ids[..4],
        [
            "beta0p0_gamma0p30_spin0p5",
            "beta0p0_gamma0p30_spin2p0",
            "beta0p0_gamma0p70_spin0p5",
            "beta0p0_gamma0p70_spin2p0",
        ]
    );
    assert_eq!(ids[6], "beta0p7_gamma0p30_spin0p5");
    assert_eq!(ids[11], "beta0p7_gamma1p00_spin2p0");
}

#[test]
fn a_parameter_without_values_is_refused() {
    let some = || vec![value("0.0", "0")];
    for (b, g, s) in [(vec![], some(), some()), (some(), vec![], some()), (some(), some(), vec![])] {
        match build_all_tasks(&config(true), &b, &g, &s) {
            Err(WorkflowError::InvalidConfig(text)) => {
                assert_eq!(text, "All parameter lists must be non-empty")
            }
            _ => panic!("a list is empty"),
        }
    }
}

#[test]
fn parameters_are_filled_in() {
    let seed = "task: x\nmix_spin_amp : __SPIN_AMP__\n__DEVEL_CODE__\n";
    assert_eq!(
        fill_parameters(seed, "0.7", "0.3", "2"),
        "task: x\nmix_spin_amp : 2\n\
         devel_code: PROF:*:ENDPROF s4u=true s4u_beta=0.7 s4u_gamma=0.3\n"
    );
}

#[test]
fn output_has_to_be_complete() {
    assert!(check_output("Initialisation\nTotal time          =   12.3 s\n").is_ok());
    assert!(check_output("Total time").is_ok());
    for output in ["", "Total tim", "total time", "Total  time"] {
        match check_output(output) {
            Err(WorkflowError::InvalidConfig(text)) => {
                assert_eq!(text, "CASTEP output missing 'Total time' marker")
            }
            _ => panic!("the output is not complete"),
        }
    }
}
