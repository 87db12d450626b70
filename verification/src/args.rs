use vstd::prelude::*;

use crate::text::{append_bytes, ascii_bytes, lit_bytes, push_lit, views};

verus! {

/// The argument vectors handed to the transfer executable, one builder per
/// operation mode, each pinned byte for byte. The caller spawns the
/// executable with these arguments after the generated password file, key
/// file and temporary directory arguments.

/// An argument made of an ASCII flag prefix and a raw value, such as
/// `--device-id=<id>`.
pub fn make_arg(pre: &str, val: &Vec<u8>) -> (r: Vec<u8>)
    requires
        vstd::string::is_ascii(pre),
    ensures
        r@ == ascii_bytes(pre@) + val@,
{
    let mut r: Vec<u8> = Vec::new();
    proof {
        assert(r@ + ascii_bytes(pre@) =~= ascii_bytes(pre@));
    }
    push_lit(&mut r, pre);
    append_bytes(&mut r, val);
    r
}

/// The remote target of uploads, deletions and downloads:
/// `<user>@<serverAddress>::home/`.
pub open spec fn spec_target(user: Seq<u8>, srv: Seq<u8>) -> Seq<u8> {
    user + ascii_bytes("@"@) + srv + ascii_bytes("::home/"@)
}

pub fn target_home(username: &Vec<u8>, srv_ip: &Vec<u8>) -> (r: Vec<u8>)
    ensures
        r@ == spec_target(username@, srv_ip@),
{
    proof {
        reveal_strlit("@");
        reveal_strlit("::home/");
    }
    let mut r: Vec<u8> = Vec::new();
    proof {
        assert(r@ + username@ =~= username@);
    }
    append_bytes(&mut r, username);
    push_lit(&mut r, "@");
    append_bytes(&mut r, srv_ip);
    push_lit(&mut r, "::home/");
    r
}

/// The remote target of a listing: `<user>@<serverAddress>::home<dir>`,
/// the directory's absolute path standing in for the trailing slash.
pub open spec fn spec_target_at(user: Seq<u8>, srv: Seq<u8>, dir: Seq<u8>) -> Seq<u8> {
    user + ascii_bytes("@"@) + srv + ascii_bytes("::home"@) + dir
}

pub fn target_at(username: &Vec<u8>, srv_ip: &Vec<u8>, dir: &Vec<u8>) -> (r: Vec<u8>)
    ensures
        r@ == spec_target_at(username@, srv_ip@, dir@),
{
    proof {
        reveal_strlit("@");
        reveal_strlit("::home");
    }
    let mut r: Vec<u8> = Vec::new();
    proof {
        assert(r@ + username@ =~= username@);
    }
    append_bytes(&mut r, username);
    push_lit(&mut r, "@");
    append_bytes(&mut r, srv_ip);
    push_lit(&mut r, "::home");
    append_bytes(&mut r, dir);
    r
}

/// The arguments of an upload invocation: structured output, upload mode,
/// the device, the list file, the relative-path flag rooted at `/`, and the
/// remote target.
pub fn upload_args(username: &Vec<u8>, srv_ip: &Vec<u8>, dev_id: &Vec<u8>, list_file: &Vec<u8>) -> (args: Vec<Vec<u8>>)
    ensures
        views(args@) == seq![
            ascii_bytes("--xml-output"@),
            ascii_bytes("--type"@),
            ascii_bytes("--device-id="@) + dev_id@,
            ascii_bytes("--files-from="@) + list_file@,
            ascii_bytes("--relative"@),
            ascii_bytes("/"@),
            spec_target(username@, srv_ip@),
        ],
{
    proof {
        reveal_strlit("--xml-output");
        reveal_strlit("--type");
        reveal_strlit("--device-id=");
        reveal_strlit("--files-from=");
        reveal_strlit("--relative");
        reveal_strlit("/");
    }
    let mut args: Vec<Vec<u8>> = Vec::new();
    args.push(lit_bytes("--xml-output"));
    args.push(lit_bytes("--type"));
    args.push(make_arg("--device-id=", dev_id));
    args.push(make_arg("--files-from=", list_file));
    args.push(lit_bytes("--relative"));
    args.push(lit_bytes("/"));
    args.push(target_home(username, srv_ip));
    proof {
        assert(views(args@) =~= seq![
            ascii_bytes("--xml-output"@),
            ascii_bytes("--type"@),
            ascii_bytes("--device-id="@) + dev_id@,
            ascii_bytes("--files-from="@) + list_file@,
            ascii_bytes("--relative"@),
            ascii_bytes("/"@),
            spec_target(username@, srv_ip@),
        ]);
    }
    args
}

/// The arguments of a delete invocation: delete mode, structured output,
/// the list file, the relative-path flag, the device, and the remote
/// target.
pub fn delete_args(username: &Vec<u8>, srv_ip: &Vec<u8>, dev_id: &Vec<u8>, list_file: &Vec<u8>) -> (args: Vec<Vec<u8>>)
    ensures
        views(args@) == seq![
            ascii_bytes("--delete-items"@),
            ascii_bytes("--xml-output"@),
            ascii_bytes("--files-from="@) + list_file@,
            ascii_bytes("--relative"@),
            ascii_bytes("--device-id="@) + dev_id@,
            spec_target(username@, srv_ip@),
        ],
{
    proof {
        reveal_strlit("--delete-items");
        reveal_strlit("--xml-output");
        reveal_strlit("--files-from=");
        reveal_strlit("--relative");
        reveal_strlit("--device-id=");
    }
    let mut args: Vec<Vec<u8>> = Vec::new();
    args.push(lit_bytes("--delete-items"));
    args.push(lit_bytes("--xml-output"));
    args.push(make_arg("--files-from=", list_file));
    args.push(lit_bytes("--relative"));
    args.push(make_arg("--device-id=", dev_id));
    args.push(target_home(username, srv_ip));
    proof {
        assert(views(args@) =~= seq![
            ascii_bytes("--delete-items"@),
            ascii_bytes("--xml-output"@),
            ascii_bytes("--files-from="@) + list_file@,
            ascii_bytes("--relative"@),
            ascii_bytes("--device-id="@) + dev_id@,
            spec_target(username@, srv_ip@),
        ]);
    }
    args
}

/// The arguments of a list invocation: list mode, structured output, the
/// device, and the directory's remote target.
pub fn list_args(username: &Vec<u8>, srv_ip: &Vec<u8>, dev_id: &Vec<u8>, dir: &Vec<u8>) -> (args: Vec<Vec<u8>>)
    ensures
        views(args@) == seq![
            ascii_bytes("--auth-list"@),
            ascii_bytes("--xml-output"@),
            ascii_bytes("--device-id="@) + dev_id@,
            spec_target_at(username@, srv_ip@, dir@),
        ],
{
    proof {
        reveal_strlit("--auth-list");
        reveal_strlit("--xml-output");
        reveal_strlit("--device-id=");
    }
    let mut args: Vec<Vec<u8>> = Vec::new();
    args.push(lit_bytes("--auth-list"));
    args.push(lit_bytes("--xml-output"));
    args.push(make_arg("--device-id=", dev_id));
    args.push(target_at(username, srv_ip, dir));
    proof {
        assert(views(args@) =~= seq![
            ascii_bytes("--auth-list"@),
            ascii_bytes("--xml-output"@),
            ascii_bytes("--device-id="@) + dev_id@,
            spec_target_at(username@, srv_ip@, dir@),
        ]);
    }
    args
}

/// The arguments of a download invocation: structured output, the list
/// file, the device, the remote target and the local destination directory.
pub fn restore_args(
    username: &Vec<u8>,
    srv_ip: &Vec<u8>,
    dev_id: &Vec<u8>,
    list_file: &Vec<u8>,
    dest: &Vec<u8>,
) -> (args: Vec<Vec<u8>>)
    ensures
        views(args@) == seq![
            ascii_bytes("--xml-output"@),
            ascii_bytes("--files-from="@) + list_file@,
            ascii_bytes("--device-id="@) + dev_id@,
            spec_target(username@, srv_ip@),
            dest@,
        ],
{
    proof {
        reveal_strlit("--xml-output");
        reveal_strlit("--files-from=");
        reveal_strlit("--device-id=");
    }
    let mut args: Vec<Vec<u8>> = Vec::new();
    args.push(lit_bytes("--xml-output"));
    args.push(make_arg("--files-from=", list_file));
    args.push(make_arg("--device-id=", dev_id));
    args.push(target_home(username, srv_ip));
    args.push(crate::text::clone_bytes(dest));
    proof {
        assert(views(args@) =~= seq![
            ascii_bytes("--xml-output"@),
            ascii_bytes("--files-from="@) + list_file@,
            ascii_bytes("--device-id="@) + dev_id@,
            spec_target(username@, srv_ip@),
            dest@,
        ]);
    }
    args
}

/// The arguments of the server-address query.
pub fn server_address_args(username: &Vec<u8>) -> (args: Vec<Vec<u8>>)
    ensures
        views(args@) == seq![ascii_bytes("--getServerAddress"@), username@],
{
    proof {
        reveal_strlit("--getServerAddress");
    }
    let mut args: Vec<Vec<u8>> = Vec::new();
    args.push(lit_bytes("--getServerAddress"));
    args.push(crate::text::clone_bytes(username));
    proof {
        assert(views(args@) =~= seq![ascii_bytes("--getServerAddress"@), username@]);
    }
    args
}

/// The arguments of the device-list query.
pub fn list_device_args(username: &Vec<u8>, srv_ip: &Vec<u8>) -> (args: Vec<Vec<u8>>)
    ensures
        views(args@) == seq![ascii_bytes("--list-device"@), spec_target(username@, srv_ip@)],
{
    proof {
        reveal_strlit("--list-device");
    }
    let mut args: Vec<Vec<u8>> = Vec::new();
    args.push(lit_bytes("--list-device"));
    args.push(target_home(username, srv_ip));
    proof {
        assert(views(args@) =~= seq![ascii_bytes("--list-device"@), spec_target(
            username@,
            srv_ip@,
        )]);
    }
    args
}

/// The arguments of the quota query.
pub fn quota_args(username: &Vec<u8>, srv_ip: &Vec<u8>) -> (args: Vec<Vec<u8>>)
    ensures
        views(args@) == seq![ascii_bytes("--get-quota"@), spec_target(username@, srv_ip@)],
{
    proof {
        reveal_strlit("--get-quota");
    }
    let mut args: Vec<Vec<u8>> = Vec::new();
    args.push(lit_bytes("--get-quota"));
    args.push(target_home(username, srv_ip));
    proof {
        assert(views(args@) =~= seq![ascii_bytes("--get-quota"@), spec_target(
            username@,
            srv_ip@,
        )]);
    }
    args
}

} // verus!
