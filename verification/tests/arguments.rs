use b2_backup::args::{
    delete_args, list_args, list_device_args, make_arg, quota_args, restore_args,
    server_address_args, target_home, upload_args,
};
use b2_backup::{context, default_batch_size, Config};

fn config() -> Config {
    Config {
        username: b"user".to_vec(),
        password: b"pw".to_vec(),
        encryption_key: b"key".to_vec(),
        device_name: b"box".to_vec(),
        notify_email: b"a@b.example".to_vec(),
        includes: vec![b"/home".to_vec()],
        excludes: vec![b"/home/tmp".to_vec()],
        batch_size: default_batch_size(),
    }
}

#[test]
fn default_upload_batch_size_is_one_thousand() {
    assert_eq!(default_batch_size(), 1000);
    assert_eq!(config().batch_size, 1000);
}

#[test]
fn target_names_user_server_and_home() {
    let t = target_home(&b"user".to_vec(), &b"1.2.3.4".to_vec());
    assert_eq!(t, b"user@1.2.3.4::home/".to_vec());
}

#[test]
fn upload_arguments_are_exact() {
    let args = upload_args(
        &b"user".to_vec(),
        &b"1.2.3.4".to_vec(),
        &b"5c0bX4b5z".to_vec(),
        &b"/tmp/list".to_vec(),
    );
    let expect: Vec<Vec<u8>> = vec![
        b"--xml-output".to_vec(),
        b"--type".to_vec(),
        b"--device-id=5c0bX4b5z".to_vec(),
        b"--files-from=/tmp/list".to_vec(),
        b"--relative".to_vec(),
        b"/".to_vec(),
        b"user@1.2.3.4::home/".to_vec(),
    ];
    assert_eq!(args, expect);
}

#[test]
fn delete_arguments_are_exact() {
    let args = delete_args(
        &b"user".to_vec(),
        &b"1.2.3.4".to_vec(),
        &b"D1".to_vec(),
        &b"/tmp/list".to_vec(),
    );
    let expect: Vec<Vec<u8>> = vec![
        b"--delete-items".to_vec(),
        b"--xml-output".to_vec(),
        b"--files-from=/tmp/list".to_vec(),
        b"--relative".to_vec(),
        b"--device-id=D1".to_vec(),
        b"user@1.2.3.4::home/".to_vec(),
    ];
    assert_eq!(args, expect);
}

#[test]
fn list_arguments_append_the_directory_to_the_target() {
    let args = list_args(&b"u".to_vec(), &b"s".to_vec(), &b"D1".to_vec(), &b"/docs".to_vec());
    let expect: Vec<Vec<u8>> = vec![
        b"--auth-list".to_vec(),
        b"--xml-output".to_vec(),
        b"--device-id=D1".to_vec(),
        b"u@s::home/docs".to_vec(),
    ];
    assert_eq!(args, expect);
}

#[test]
fn restore_arguments_end_with_the_destination() {
    let args = restore_args(
        &b"u".to_vec(),
        &b"s".to_vec(),
        &b"D1".to_vec(),
        &b"/tmp/list".to_vec(),
        &b"/restore/here".to_vec(),
    );
    let expect: Vec<Vec<u8>> = vec![
        b"--xml-output".to_vec(),
        b"--files-from=/tmp/list".to_vec(),
        b"--device-id=D1".to_vec(),
        b"u@s::home/".to_vec(),
        b"/restore/here".to_vec(),
    ];
    assert_eq!(args, expect);
}

#[test]
fn query_arguments_are_exact() {
    assert_eq!(
        server_address_args(&b"u".to_vec()),
        vec![b"--getServerAddress".to_vec(), b"u".to_vec()]
    );
    assert_eq!(
        list_device_args(&b"u".to_vec(), &b"s".to_vec()),
        vec![b"--list-device".to_vec(), b"u@s::home/".to_vec()]
    );
    assert_eq!(
        quota_args(&b"u".to_vec(), &b"s".to_vec()),
        vec![b"--get-quota".to_vec(), b"u@s::home/".to_vec()]
    );
}

#[test]
fn prefixed_arguments_join_flag_and_value() {
    assert_eq!(
        make_arg("--password-file=", &b"/tmp/p".to_vec()),
        b"--password-file=/tmp/p".to_vec()
    );
}

#[test]
fn context_joins_message_and_cause() {
    let joined = context(&b"Failed to upload files".to_vec(), &b"bad record".to_vec());
    assert_eq!(joined, b"Failed to upload files: bad record".to_vec());
}
