use asset_migrator::dropwatch::Dropwatch;

#[test]
fn a_watch_can_be_created_and_started() {
    let mut w = Dropwatch::new("COLLECT");
    w.begin();
    let _running = Dropwatch::new_begin("CONVERT");
}
