use stargazer::context::{pair_replies, ArbiterContext, ContextCell, Role};

#[test]
fn registry_by_role() {
    let mut ctx: ArbiterContext<u32> = ArbiterContext::new(7);
    assert_eq!(ctx.instance_id, 7);
    assert_eq!(ctx.get_addr(Role::Collector), None);
    ctx.register_addr(Role::Collector, 41);
    ctx.register_addr(Role::Scheduler, 42);
    assert_eq!(ctx.get_addr(Role::Collector), Some(&41));
    assert_eq!(ctx.get_addr(Role::Scheduler), Some(&42));
    ctx.register_addr(Role::Collector, 43);
    assert_eq!(ctx.get_addr(Role::Collector), Some(&43));
    assert_eq!(ctx.addrs.len(), 2);
    assert_eq!(ctx.get_addr(Role::ScheduleDriver), None);
}

#[test]
fn context_cell_is_set_once() {
    let mut cell: ContextCell<u32> = ContextCell::new();
    assert!(!cell.is_set());
    assert_eq!(cell.try_get(), None);
    cell.set(5);
    assert!(cell.is_set());
    assert_eq!(cell.try_get(), Some(&5));
}

#[test]
fn broadcast_pairs_ids_with_replies() {
    assert_eq!(pair_replies(vec![1, 2, 3], vec!["a", "b", "c"]), vec![(1, "a"), (2, "b"), (3, "c")]);
    assert!(pair_replies::<u8>(vec![], vec![]).is_empty());
}
