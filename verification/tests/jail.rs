use magicpak::base::Error;
use magicpak::domain::jail::{BusyBoxInstall, BUSYBOX_MODE};
use magicpak::domain::Jail;

#[test]
fn test_install_busybox() {
    let jail = Jail::new(b"/tmp/.tmpJail".to_vec());
    let install = jail.install_busybox(b"/usr/bin/busybox");

    assert_eq!(install.busybox_jail_path, [jail.path(), b"/bin/busybox"].concat());
    assert_eq!(
        install,
        BusyBoxInstall {
            bindir: b"/tmp/.tmpJail/bin/".to_vec(),
            from: b"/usr/bin/busybox".to_vec(),
            busybox_jail_path: b"/tmp/.tmpJail/bin/busybox".to_vec(),
            mode: 0o755,
            args: vec![b"--install".to_vec(), b"/tmp/.tmpJail/bin/".to_vec()],
        }
    );
    assert_eq!(Jail::busybox_installed(true, b""), Ok(()));
}

#[test]
fn a_busybox_that_does_not_install_is_an_error() {
    assert_eq!(
        Jail::busybox_installed(false, b"busybox: applet not found"),
        Err(Error::BusyBoxInstall(b"busybox: applet not found".to_vec()))
    );
    assert_eq!(BUSYBOX_MODE, 0o755);
}

#[test]
fn a_jail_is_its_directory() {
    let jail = Jail::new(b"/tmp/j/".to_vec());
    assert_eq!(jail.path(), b"/tmp/j/");
    assert_eq!(jail.install_busybox(b"/bb").bindir, b"/tmp/j/bin/".to_vec());
}
