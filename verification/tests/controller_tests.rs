use std::sync::atomic::AtomicBool;
use std::sync::atomic::Ordering;
use std::sync::Arc;
use std::sync::Mutex;
use std::time::Duration;

use mdns_scan::controller::ScanController;
use mdns_scan::record::RecordEntry;
use mdns_scan::store::RecordEntries;

/// A test double standing in for a scan task's resources: dropping it (which
/// cancellation does) raises an observable flag.
struct CancelFlag(Arc<AtomicBool>);

impl Drop for CancelFlag {
    fn drop(&mut self) {
        self.0.store(true, Ordering::SeqCst);
    }
}

#[test]
fn a_new_controller_holds_no_task() {
    let ctrl = ScanController::new();
    assert!(!ctrl.has_task());
}

#[test]
fn install_then_retire_surrenders_the_handle() {
    async_std::task::block_on(async {
        let mut ctrl = ScanController::new();
        let handle = async_std::task::spawn(async {});
        assert!(ctrl.install(handle).is_none());
        assert!(ctrl.has_task());
        let prev = ctrl.retire();
        assert!(prev.is_some());
        assert!(!ctrl.has_task());
        prev.unwrap().cancel().await;
    });
}

#[test]
fn starting_again_cancels_the_prior_task_first() {
    async_std::task::block_on(async {
        let cancelled = Arc::new(AtomicBool::new(false));
        let flag = CancelFlag(Arc::clone(&cancelled));

        let mut ctrl = ScanController::new();
        let first = async_std::task::spawn(async move {
            let _held = flag;
            async_std::future::pending::<()>().await;
        });
        assert!(ctrl.install(first).is_none());

        // The start sequence for the next query: retire and fully cancel the
        // old task before anything of the new scan runs.
        let prev = ctrl.retire();
        assert!(prev.is_some());
        assert!(!cancelled.load(Ordering::SeqCst));
        prev.unwrap().cancel().await;
        assert!(cancelled.load(Ordering::SeqCst));

        let second = async_std::task::spawn(async {});
        assert!(ctrl.install(second).is_none());
        let last = ctrl.retire();
        last.unwrap().cancel().await;
    });
}

#[test]
fn restart_leaves_the_store_empty_before_new_data() {
    async_std::task::block_on(async {
        let store = Arc::new(Mutex::new(RecordEntries::new()));
        let mut ctrl = ScanController::new();

        // First scan: its in-flight data reaches the store.
        let writer_store = Arc::clone(&store);
        let first = async_std::task::spawn(async move {
            writer_store
                .lock()
                .unwrap()
                .apply(vec![RecordEntry::A(0x0a000005, String::from("printer.local"))]);
            async_std::future::pending::<()>().await;
        });
        assert!(ctrl.install(first).is_none());
        async_std::task::sleep(Duration::from_millis(100)).await;
        assert_eq!(store.lock().unwrap().snapshot().entries().len(), 1);

        // Second start: retire and cancel the old task, clear, then launch.
        let prev = ctrl.retire();
        prev.unwrap().cancel().await;
        store.lock().unwrap().clear();
        let second = async_std::task::spawn(async {
            async_std::future::pending::<()>().await;
        });
        assert!(ctrl.install(second).is_none());

        // Right after the second start the store is empty, whatever the
        // first query had delivered.
        assert_eq!(store.lock().unwrap().snapshot().entries().len(), 0);

        let last = ctrl.retire();
        last.unwrap().cancel().await;
    });
}
