use conrt::client::passed_fd;
use conrt::coio::buffers::Buffers;
use conrt::coio::classes::SizeClass;
use conrt::coio::msg::cmsg_space;
use conrt::coio::msg::IoBuf;
use conrt::coio::msg::Msg;
use conrt::coio::msg::MsgMut;
use conrt::coio::msg::MAX_CTRL_CAP;
use conrt::coio::msg::MAX_IOV_CAP;
use conrt::coio::msg::SCM_RIGHTS;
use conrt::coio::msg::SOL_SOCKET;

fn class(size: u32, count: u32) -> SizeClass {
    SizeClass { size, count }
}

fn test_buffers() -> Buffers {
    Buffers::build_pools(
        &[class(16, 4)],
        &[
            class(16, 4),
            class(64, 4),
            class(2048, 4),
            class(16384, 2),
        ],
        1,
    )
}

fn free_counts(b: &Buffers) -> (usize, usize, usize) {
    (
        b.fixed_pool().slab(1).free_count(),
        b.fixed_pool().slab(2).free_count(),
        b.fixed_pool().slab(3).free_count(),
    )
}

fn iov(len: usize) -> IoBuf {
    IoBuf { base: 0, len }
}

#[test]
fn msg_new_wires_iov_and_ctrl_to_pooled_memory() {
    let mut b = test_buffers();
    let slot = Msg::new(&mut b).unwrap();
    assert_eq!(slot.iov_len(), 0);
    assert!(slot.iov(0).is_none());
    assert!(slot.ctrl().is_empty());
}

#[test]
fn msg_drop_recycles_all_slots() {
    let mut b = test_buffers();
    let (free1, free2, free3) = free_counts(&b);
    let slot = Msg::new(&mut b).unwrap();
    assert_eq!(free_counts(&b), (free1 - 1, free2 - 1, free3 - 1));
    slot.release(&mut b);
    assert_eq!(free_counts(&b), (free1, free2, free3));
}

#[test]
fn released_message_can_be_taken_again() {
    let mut b = test_buffers();
    let before = free_counts(&b);
    for _ in 0..8 {
        let mut slot = Msg::new(&mut b).unwrap();
        assert!(slot.push_iov(iov(3)));
        assert!(slot.push_scm_rights(&[1, 2]));
        slot.release(&mut b);
        assert_eq!(free_counts(&b), before);
    }
}

#[test]
fn msg_takes_nothing_when_one_slot_is_missing() {
    let mut b = test_buffers();
    let first = Msg::new(&mut b).unwrap();
    let second = MsgMut::new(&mut b).unwrap();
    let before = free_counts(&b);
    assert!(Msg::new(&mut b).is_none());
    assert_eq!(free_counts(&b), before);
    first.release(&mut b);
    second.release(&mut b);
}

#[test]
fn msg_slot_wires_iov_to_pooled_memory() {
    let mut b = test_buffers();
    let mut slot = Msg::new(&mut b).unwrap();
    assert_eq!(slot.iov_len(), 0);
    assert!(slot.iov(0).is_none());
    assert!(slot.push_iov(iov(5)));
    assert!(slot.push_iov(iov(6)));
    assert_eq!(slot.iov_len(), 2);
    assert_eq!(slot.iov(0).unwrap().len, 5);
    assert_eq!(slot.iov(1).unwrap().len, 6);
    assert!(slot.iov(2).is_none());
}

#[test]
fn msg_slot_push_iov_rejects_past_capacity() {
    let mut b = test_buffers();
    let mut slot = Msg::new(&mut b).unwrap();
    for _ in 0..MAX_IOV_CAP {
        assert!(slot.push_iov(iov(1)));
    }
    assert!(!slot.push_iov(iov(2)));
    assert_eq!(slot.iov_len(), MAX_IOV_CAP);
}

#[test]
fn msg_slot_wires_ctrl_to_pooled_memory() {
    let mut b = test_buffers();
    let mut slot = Msg::new(&mut b).unwrap();
    assert_eq!(slot.ctrl().len(), 0);
    assert!(slot.push_cmsg(libc::SOL_SOCKET, libc::SCM_RIGHTS, &[0u8; 4]));
    assert_eq!(slot.ctrl().len(), cmsg_space(4));
}

#[test]
fn msg_slot_push_cmsg_accumulates_and_overflows() {
    let mut b = test_buffers();
    let mut slot = Msg::new(&mut b).unwrap();
    let payload = [1u8, 2, 3, 4];
    assert!(slot.push_cmsg(libc::SOL_SOCKET, libc::SCM_RIGHTS, &payload));
    let ctrl = slot.ctrl();
    assert_eq!(ctrl[0..8], 20u64.to_le_bytes());
    assert_eq!(ctrl[8..12], libc::SOL_SOCKET.to_le_bytes());
    assert_eq!(ctrl[12..16], libc::SCM_RIGHTS.to_le_bytes());
    assert_eq!(ctrl[16..20], payload);
    // A second one of the same size fits, and takes as much space again.
    assert!(slot.push_cmsg(libc::SOL_SOCKET, libc::SCM_CREDENTIALS, &payload));
    assert_eq!(slot.ctrl().len(), 2 * cmsg_space(4));
    // One that would not fit is refused and changes nothing.
    let huge = vec![0u8; MAX_CTRL_CAP];
    assert!(!slot.push_cmsg(1, 2, &huge));
    assert_eq!(slot.ctrl().len(), 2 * cmsg_space(4));
}

#[test]
fn msg_caps_and_sizes_are_kernel_maxima() {
    assert_eq!(MAX_IOV_CAP, 1024);
    assert_eq!(MAX_CTRL_CAP, cmsg_space(253 * size_of::<libc::c_int>()));
    assert_eq!(SOL_SOCKET, libc::SOL_SOCKET);
    assert_eq!(SCM_RIGHTS, libc::SCM_RIGHTS);
}

#[test]
fn most_descriptors_fill_the_control_buffer() {
    let mut b = test_buffers();
    let mut slot = Msg::new(&mut b).unwrap();
    let fds: Vec<i32> = (0..253).collect();
    assert!(slot.push_scm_rights(&fds));
    assert_eq!(slot.ctrl().len(), MAX_CTRL_CAP);
    assert!(!slot.push_scm_rights(&[]));
    slot.clear();
    assert!(slot.ctrl().is_empty());
    assert!(slot.push_scm_rights(&[7]));
}

#[test]
fn msgmut_take_iov_copies_and_resets() {
    let mut b = test_buffers();
    let mut slot = MsgMut::new(&mut b).unwrap();
    assert!(slot.push_iov(iov(3)));
    assert!(slot.push_iov(iov(4)));
    let iovs = slot.take_iov();
    assert_eq!(iovs.len(), 2);
    assert_eq!(iovs[0].len, 3);
    assert_eq!(iovs[1].len, 4);
    assert_eq!(slot.iov_len(), 0);
    assert!(slot.iov(0).is_none());
}

#[test]
fn passed_descriptors_are_found() {
    let mut b = test_buffers();
    let mut slot = Msg::new(&mut b).unwrap();
    assert!(slot.push_scm_rights(&[17]));
    assert_eq!(passed_fd(slot.ctrl()), Some(17));
    slot.clear();
    assert!(slot.push_scm_rights(&[-1]));
    assert_eq!(passed_fd(slot.ctrl()), Some(-1));
    slot.clear();
    assert!(slot.push_cmsg(SOL_SOCKET, 2, &[17, 0, 0, 0]));
    assert_eq!(passed_fd(slot.ctrl()), None);
    assert_eq!(passed_fd(&[0u8; 24]), None);
}

#[test]
fn control_bytes_are_put_into_their_slot() {
    let mut b = test_buffers();
    let mut slot = Msg::new(&mut b).unwrap();
    assert!(slot.push_scm_rights(&[17, 18]));
    let start = slot.place_ctrl(&mut b);
    let control = slot.ctrl().clone();
    assert_eq!(b.memory()[start..start + control.len()], control);
    assert_eq!(passed_fd(&b.memory()[start..start + control.len()]), Some(17));
    slot.release(&mut b);
}
