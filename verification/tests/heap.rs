use lib::heap::{GcHeap, HeapHandle, Trace, Tracer};

#[derive(Debug, Clone, PartialEq, Eq)]
struct Node {
    name: &'static str,
    edges: Vec<HeapHandle>,
}

impl Trace for Node {
    fn trace(&self, tracer: &mut Tracer<'_>) {
        for handle in &self.edges {
            tracer.mark(*handle);
        }
    }
}

#[test]
fn allocation_returns_a_live_handle() {
    let mut heap = GcHeap::new();
    let handle = heap.allocate(Node {
        name: "root",
        edges: Vec::new(),
    });

    assert_eq!(heap.live_len(), 1);
    assert_eq!(
        heap.get(handle).expect("handle should resolve").name,
        "root"
    );
}

#[test]
fn tracing_keeps_reachable_objects_and_collects_the_rest() {
    let mut heap = GcHeap::new();
    let leaf = heap.allocate(Node {
        name: "leaf",
        edges: Vec::new(),
    });
    let root = heap.allocate(Node {
        name: "root",
        edges: vec![leaf],
    });
    let orphan = heap.allocate(Node {
        name: "orphan",
        edges: Vec::new(),
    });

    let report = heap.collect([root]);

    assert_eq!(report.marked, 2);
    assert_eq!(report.collected, 1);
    assert_eq!(heap.live_len(), 2);
    assert!(heap.contains(root));
    assert!(heap.contains(leaf));
    assert!(!heap.contains(orphan));
}

#[test]
fn stale_handles_do_not_resolve_after_slot_reuse() {
    let mut heap = GcHeap::new();
    let stale = heap.allocate(Node {
        name: "old",
        edges: Vec::new(),
    });
    heap.collect([]);

    let fresh = heap.allocate(Node {
        name: "new",
        edges: Vec::new(),
    });

    assert_eq!(fresh.index(), stale.index());
    assert_ne!(fresh.generation(), stale.generation());
    assert!(heap.get(stale).is_none());
    assert_eq!(
        heap.get(fresh).expect("fresh handle should resolve").name,
        "new"
    );
}

#[test]
fn stress_collects_many_unreachable_allocations() {
    let mut heap = GcHeap::new();
    let root = heap.allocate(Node {
        name: "root",
        edges: Vec::new(),
    });
    for index in 0..10_000 {
        let name = if index % 2 == 0 { "even" } else { "odd" };
        heap.allocate(Node {
            name,
            edges: Vec::new(),
        });
    }

    let report = heap.collect([root]);

    assert_eq!(report.marked, 1);
    assert_eq!(report.collected, 10_000);
    assert_eq!(heap.live_len(), 1);
    assert!(heap.contains(root));
}

#[test]
fn a_handle_read_after_allocation_gives_back_the_value() {
    let mut heap = GcHeap::new();
    let first = heap.allocate(Node {
        name: "first",
        edges: Vec::new(),
    });
    let second = heap.allocate(Node {
        name: "second",
        edges: vec![first],
    });

    assert_eq!(heap.get(first).expect("first resolves").name, "first");
    assert_eq!(heap.get(second).expect("second resolves").edges, vec![first]);
    assert_eq!(heap.capacity(), 2);
}

#[test]
fn collection_frees_only_and_counts_what_it_frees() {
    let mut heap = GcHeap::new();
    let kept = heap.allocate(Node {
        name: "kept",
        edges: Vec::new(),
    });
    let dropped = heap.allocate(Node {
        name: "dropped",
        edges: Vec::new(),
    });

    let report = heap.collect(vec![kept]);

    assert_eq!(report.marked, 1);
    assert_eq!(report.collected, 1);
    assert_eq!(report.live_after, 1);
    assert!(heap.contains(kept));
    assert!(!heap.contains(dropped));

    let again = heap.collect_from(&[kept]);
    assert_eq!(again.collected, 0);
    assert_eq!(again.live_after, 1);
}

#[test]
fn get_mut_changes_the_stored_value() {
    let mut heap = GcHeap::new();
    let handle = heap.allocate(Node {
        name: "before",
        edges: Vec::new(),
    });

    heap.get_mut(handle).expect("handle resolves").name = "after";

    assert_eq!(heap.get(handle).expect("handle resolves").name, "after");
}

#[test]
fn allocation_fills_an_emptied_slot_before_adding_one() {
    let mut heap = GcHeap::new();
    let kept = heap.allocate(Node {
        name: "kept",
        edges: Vec::new(),
    });
    let dropped = heap.allocate(Node {
        name: "dropped",
        edges: Vec::new(),
    });
    heap.collect([kept]);
    assert_eq!(heap.capacity(), 2);

    let refill = heap.allocate(Node {
        name: "refill",
        edges: Vec::new(),
    });
    assert_eq!(heap.capacity(), 2);
    assert_eq!(refill.index(), dropped.index());
    assert!(heap.contains(kept));
}
