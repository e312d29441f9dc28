use illuvatar::completion::{
    completion_from_nodes, parse_run_completion, CompletionError, CompletionStatus, TagText,
};
use illuvatar::manager::{DirManager, Probe, SeqDirState};
use illuvatar::seqdir::{
    check_lane_count, cycle_number, detect_illumina_seq_dir, lane_dirs, Bcl, Cycle, DirProbe,
    SeqDir, SeqDirError,
};

const COMPLETE: &str = "test_data/seq_complete/";

fn complete_probe() -> DirProbe {
    DirProbe { is_dir: true, copy_complete: true, samplesheet: true, run_info: true, run_params: true }
}

#[test]
fn complete_seqdir() -> Result<(), SeqDirError> {
    let probe = complete_probe();
    let seq_dir = detect_illumina_seq_dir(COMPLETE, &probe)
        .and_then(|_| SeqDir::from_path(COMPLETE, probe.is_dir))?;
    seq_dir.samplesheet(probe.samplesheet)?;
    seq_dir.run_info(probe.run_info)?;
    seq_dir.run_params(probe.run_params)?;
    Ok(())
}

#[test]
fn seqdir_paths() {
    let d = SeqDir::from_path(COMPLETE, true).unwrap();
    assert_eq!(d.samplesheet(true).unwrap(), "test_data/seq_complete/SampleSheet.csv");
    let d = SeqDir::from_path("run", true).unwrap();
    assert_eq!(d.run_info(true).unwrap(), "run/RunInfo.xml");
    assert_eq!(d.run_params(false), Err(SeqDirError::NotFound("run/RunParameters.xml".to_string())));
    assert_eq!(d.run_completion_status(true).unwrap(), "run/RunCompletionStatus.xml");
    assert_eq!(d.get_file("RTAComplete.txt", true).unwrap(), "run/RTAComplete.txt");
    assert_eq!(SeqDir::from_path("nowhere", false).unwrap_err(), SeqDirError::NotFound("nowhere".to_string()));
}

#[test]
fn incomplete_seqdir() {
    let mut p = complete_probe();
    p.copy_complete = false;
    assert_eq!(
        detect_illumina_seq_dir("run", &p),
        Err(SeqDirError::NotFound("CopyComplete.txt".to_string()))
    );
    let mut p = complete_probe();
    p.run_params = false;
    assert_eq!(
        detect_illumina_seq_dir("run", &p),
        Err(SeqDirError::NotFound("RunParameters.xml".to_string()))
    );
    let mut p = complete_probe();
    p.is_dir = false;
    assert!(matches!(detect_illumina_seq_dir("run", &p), Err(SeqDirError::IoError(_))));
    assert!(SeqDir::from_completed("run", &p).is_err());
}

#[test]
fn bcl_from_path() {
    assert!(matches!(Bcl::from_path("a/L001_1.cbcl"), Some(Bcl::CBcl(p)) if p == "a/L001_1.cbcl"));
    assert!(matches!(Bcl::from_path("x.cbcl.gz"), Some(Bcl::CBcl(_))));
    assert!(matches!(Bcl::from_path("x.bcl"), Some(Bcl::Bcl(_))));
    assert!(matches!(Bcl::from_path("x.bcl.gz"), Some(Bcl::Bcl(_))));
    assert!(Bcl::from_path("x.filter").is_none());
}

#[test]
fn cycle_numbers() {
    assert_eq!(cycle_number("root/L001/C12.1"), Some(12));
    assert_eq!(cycle_number("C7"), Some(7));
    assert_eq!(cycle_number("root/L001/X12.1"), None);
    assert_eq!(cycle_number("root/L001/C70000.1"), None);
    assert_eq!(cycle_number("root/C.1"), None);
    let entries = vec!["C3.1/L001_1.cbcl".to_string(), "C3.1/notes.txt".to_string()];
    let c = Cycle::from_entries("L001/C3.1", &entries).unwrap();
    assert_eq!(c.cycle_num(), 3);
    assert_eq!(c.bcls().len(), 1);
    let none: Vec<String> = vec!["C3.1/notes.txt".to_string()];
    assert_eq!(Cycle::from_entries("L001/C3.1", &none).unwrap_err(), SeqDirError::MissingBcls(3));
    assert!(matches!(Cycle::from_entries("L001/D3.1", &entries), Err(SeqDirError::BadCycle(_))));
}

#[test]
fn lane_counts() {
    assert_eq!(check_lane_count(0), Err(SeqDirError::MissingLaneDirs));
    assert_eq!(check_lane_count(1), Err(SeqDirError::MissingLanes(1)));
    assert_eq!(check_lane_count(2), Ok(()));
    assert_eq!(check_lane_count(3), Err(SeqDirError::MissingLanes(3)));
    assert_eq!(check_lane_count(4), Ok(()));
    assert_eq!(check_lane_count(5), Err(SeqDirError::TooManyLanes(5)));
    let dirs = lane_dirs("run");
    assert_eq!(dirs[0], "run/Data/Intensities/BaseCalls/L001");
    assert_eq!(dirs[3], "run/Data/Intensities/BaseCalls/L004");
}

#[test]
fn directory_life_cycle() {
    let d = SeqDir::from_path("run", true).unwrap();
    let mut m = DirManager::new(d, SeqDirState::Unavailable, 10);
    let sequencing = Probe { readable: true, failed: false, sequence_complete: false, copy_complete: false };
    assert_eq!(m.poll(sequencing, 20), SeqDirState::Sequencing);
    assert_eq!(m.since(), 20);
    assert_eq!(m.poll(sequencing, 30), SeqDirState::Sequencing);
    assert_eq!(m.since(), 20);
    let copying = Probe { sequence_complete: true, ..sequencing };
    assert_eq!(m.poll(copying, 40), SeqDirState::Transferring);
    let done = Probe { copy_complete: true, ..copying };
    assert_eq!(m.poll(done, 50), SeqDirState::Available);
    let gone = Probe { readable: false, ..done };
    assert_eq!(m.poll(gone, 60), SeqDirState::Unavailable);
    assert_eq!(m.state(), SeqDirState::Unavailable);
    assert_eq!(m.since(), 60);
    let failed = Probe { failed: true, ..done };
    assert_eq!(m.poll(failed, 70), SeqDirState::Failed);
    assert_eq!(m.into_inner().root(), "run");
}

#[test]
fn completion_report() {
    let c = CompletionStatus::from_tags(
        TagText::Text("RUN1".to_string()),
        TagText::Text("None".to_string()),
        TagText::Text("CompletedAsPlanned".to_string()),
    )
    .unwrap();
    match c {
        CompletionStatus::CompletedAsPlanned(m) => {
            assert_eq!(m.run_id, "RUN1");
            assert!(m.message.is_none());
        }
        _ => panic!("wrong status"),
    }
    let c = CompletionStatus::from_tags(
        TagText::Text("RUN2".to_string()),
        TagText::Text("laser".to_string()),
        TagText::Text("Something".to_string()),
    )
    .unwrap();
    assert!(matches!(c, CompletionStatus::Other(m) if m.message.as_deref() == Some("laser")));
    let e = CompletionStatus::from_tags(TagText::Missing, TagText::Missing, TagText::Missing);
    assert!(matches!(e, Err(CompletionError::MissingRunId)));
    let e = CompletionStatus::from_tags(TagText::Text("R".to_string()), TagText::Missing, TagText::Empty);
    assert!(matches!(e, Err(CompletionError::EmptyCompletionStatus)));
}

#[test]
fn completion_xml() {
    let xml = "<?xml version=\"1.0\"?>\n<RunCompletionStatus><CompletionStatus>UserEndedEarly</CompletionStatus><RunId>230101_A1_0001</RunId><ErrorDescription>None</ErrorDescription></RunCompletionStatus>";
    match parse_run_completion(xml).unwrap() {
        CompletionStatus::UserEndedEarly(m) => {
            assert_eq!(m.run_id, "230101_A1_0001");
            assert!(m.message.is_none());
        }
        _ => panic!("wrong status"),
    }
    let xml = "<R><RunId></RunId><CompletionStatus>CompletedAsPlanned</CompletionStatus></R>";
    assert!(matches!(parse_run_completion(xml), Err(CompletionError::EmptyRunId)));
    let xml = "<R><RunId>X</RunId></R>";
    assert!(matches!(parse_run_completion(xml), Err(CompletionError::MissingCompletionStatus)));
    assert!(matches!(parse_run_completion("<R><RunId>"), Err(CompletionError::BadXml)));
}

#[test]
fn completion_nodes() {
    let nodes = vec![
        ("R".to_string(), None),
        ("RunId".to_string(), Some("RUN9".to_string())),
        ("ErrorDescription".to_string(), Some("lost power".to_string())),
        ("CompletionStatus".to_string(), Some("ExceptionEndedEarly".to_string())),
        ("RunId".to_string(), Some("LATER".to_string())),
    ];
    match completion_from_nodes(&nodes).unwrap() {
        CompletionStatus::ExceptionEndedEarly(m) => {
            assert_eq!(m.run_id, "RUN9");
            assert_eq!(m.message.as_deref(), Some("lost power"));
        }
        _ => panic!("wrong status"),
    }
    assert!(matches!(completion_from_nodes(&vec![]), Err(CompletionError::MissingRunId)));
}
