use packrat::common::{AppData, Job};
use packrat::database::{PackRatDatabase, PackRatJobState, PackRatSaveData};

fn job(name: &str) -> Job {
    Job { name: name.to_string(), description: String::new(), is_archived: false, replays: vec![] }
}

#[test]
fn save_names_the_save_file_and_current_state() {
    let mut db = PackRatDatabase::from_parts(
        PackRatSaveData::default(),
        "data".to_string(),
        "data/archive".to_string(),
        "data/save.dat".to_string(),
    );
    db.savedata_mut().queue.push(PackRatJobState { job: job("a"), is_complete: false });
    let (path, save) = db.save_to_disk();
    assert_eq!(path, "data/save.dat");
    assert_eq!(save.queue.len(), 1);
    assert_eq!(save.queue[0].job.name, "a");
    assert_eq!(db.savedata().queue.len(), 1);
    assert_eq!(db.base_path(), "data");
    assert_eq!(db.archive_path(), "data/archive");
}

#[test]
fn app_data_defaults_to_zero() {
    assert_eq!(AppData::default().data(), 0);
}
