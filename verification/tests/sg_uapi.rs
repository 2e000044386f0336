use vault_watch::scsi::sg_uapi::{sg_io_abi_layout, SgIoAbiLayout};

#[test]
fn host_layout_matches_linux_sg_header_contract() {
    let layout = sg_io_abi_layout();
    if std::mem::size_of::<usize>() == 8 {
        assert_eq!(
            layout,
            SgIoAbiLayout {
                size: 88,
                alignment: 8
            }
        );
    } else {
        assert_eq!(
            layout,
            SgIoAbiLayout {
                size: 64,
                alignment: 4
            }
        );
    }
}
