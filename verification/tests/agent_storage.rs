use deckox::agent::admin_check::Verifier;
use deckox::agent::api_errors::code_for as agent_code_for;
use deckox::agent::events::EventBus;
use deckox::agent::security::{
    authorize, command_result_draft, security_status, validated_confirm, PASSWORD_REQUIRED,
};
use deckox::agent::storage::{
    flag_field, number_field, parse_df_rows, parse_lsblk, text_field, BlockDevice, DfRow, Scalar,
};
use deckox::agent::system::{eligible_block_devices, eligible_network_interfaces};
use deckox::error_shape::{error_message, keeps_header, needs_standard_shape};
use deckox::protocol::{CommandResult, CommandStatus, EventResult};
use deckox::server::api_errors::code_for as server_code_for;
use serde_json::Value;

/// A published Argon2id test vector with small parameters: the password
/// "password" with the salt "somesalt".
const HASH: &str = "$argon2id$v=19$m=256,t=2,p=1$c29tZXNhbHQ$nf65EOgLrQMR/uIPnA4rEsF5h7TKyQwu9U1bMCHGi/4";

fn scalar(value: Option<&Value>) -> Option<Scalar> {
    value.map(|value| match value {
        Value::Bool(flag) => Scalar::Bool(*flag),
        Value::Number(number) => Scalar::Number(number.to_string()),
        Value::String(text) => Scalar::Text(text.clone()),
        _ => Scalar::Other,
    })
}

fn device(value: &Value) -> BlockDevice {
    BlockDevice {
        name: scalar(value.get("name")),
        kname: scalar(value.get("kname")),
        path: scalar(value.get("path")),
        kind: scalar(value.get("type")),
        size: scalar(value.get("size")),
        model: scalar(value.get("model")),
        rota: scalar(value.get("rota")),
        tran: scalar(value.get("tran")),
        rm: scalar(value.get("rm")),
        fstype: scalar(value.get("fstype")),
        label: scalar(value.get("label")),
        children: value
            .get("children")
            .and_then(Value::as_array)
            .map(|children| children.iter().map(device).collect())
            .unwrap_or_default(),
    }
}

fn devices(input: &str) -> Option<Vec<BlockDevice>> {
    let root: Value = serde_json::from_str(input).ok()?;
    Some(root.get("blockdevices")?.as_array()?.iter().map(device).collect())
}

fn mounts(input: &str) -> Vec<DfRow> {
    parse_df_rows(input)
}

#[test]
fn parses_lsblk_disks_with_stacked_devices_and_joins_df_usage() {
    let mounts = mounts(
        "Filesystem Type 1-blocks Used Available Capacity Mounted on\n\
         /dev/sda1 ext4 1000000 400000 600000 40% /\n\
         /dev/mapper/vg-data xfs 5000000 1000000 4000000 20% /data\n",
    );
    let disks = parse_lsblk(
        devices(
            r#"{"blockdevices":[
            {"name":"sda","kname":"sda","path":"/dev/sda","type":"disk","size":500107862016,"model":"Samsung SSD 860 ","rota":false,"tran":"sata","rm":false,"fstype":null,"label":null,
             "children":[
               {"name":"sda1","kname":"sda1","path":"/dev/sda1","type":"part","size":100000000,"fstype":"ext4","label":"root"},
               {"name":"sda2","kname":"sda2","path":"/dev/sda2","type":"part","size":400000000,"fstype":"LVM2_member",
                "children":[{"name":"vg-data","kname":"dm-0","path":"/dev/mapper/vg-data","type":"lvm","size":400000000,"fstype":"xfs"}]}]},
            {"name":"sdb","kname":"sdb","path":"/dev/sdb","type":"disk","size":"2000398934016","model":null,"rota":"1","tran":"usb","rm":"1","children":[]},
            {"name":"loop0","kname":"loop0","path":"/dev/loop0","type":"loop","size":1000},
            {"name":"zram0","kname":"zram0","path":"/dev/zram0","type":"disk","size":1000}
        ]}"#,
        ),
        &mounts,
    );

    assert_eq!(disks.len(), 2, "loop and zram devices are not disks");
    assert_eq!(disks[0].name, "sda");
    assert_eq!(disks[0].model.as_deref(), Some("Samsung SSD 860"));
    assert_eq!(disks[0].rotational, Some(false));
    assert_eq!(disks[0].partitions.len(), 3);
    assert_eq!(
        disks[0].partitions[0].mount.as_ref().map(|mount| mount.mount_point.as_str()),
        Some("/")
    );
    assert!(disks[0].partitions[1].mount.is_none(), "LVM member is not mounted itself");
    assert_eq!(disks[0].partitions[2].kind, "lvm");
    assert_eq!(
        disks[0].partitions[2].mount.as_ref().map(|mount| mount.mount_point.as_str()),
        Some("/data")
    );
    assert_eq!(disks[1].size_bytes, 2_000_398_934_016);
    assert_eq!(disks[1].rotational, Some(true));
    assert!(disks[1].removable);
    assert_eq!(disks[1].transport.as_deref(), Some("usb"));
}

#[test]
fn tolerates_garbage_lsblk_output() {
    assert!(parse_lsblk(devices("not json"), &vec![]).is_empty());
    assert!(parse_lsblk(devices("{}"), &vec![]).is_empty());
}

#[test]
fn disks_are_sorted_by_name_and_named_by_kernel_name_when_pathless() {
    let disks = parse_lsblk(
        devices(
            r#"{"blockdevices":[
            {"name":"sdb","type":"disk","children":[{"kname":"sdb1"}]},
            {"name":"nvme0n1","type":"disk"},
            {"name":"sda","type":"disk","rm":1}
        ]}"#,
        ),
        &vec![],
    );
    let names: Vec<&str> = disks.iter().map(|disk| disk.name.as_str()).collect();
    assert_eq!(names, ["nvme0n1", "sda", "sdb"]);
    assert_eq!(disks[1].path, "/dev/sda");
    assert!(disks[1].removable);
    assert_eq!(disks[2].partitions[0].path, "/dev/sdb1");
    assert_eq!(disks[2].partitions[0].kind, "part");
    assert_eq!(disks[2].partitions[0].name, "");
}

#[test]
fn columns_are_read_whatever_their_json_type() {
    assert_eq!(text_field(&Some(Scalar::Text("  x ".to_owned()))), Some("x".to_owned()));
    assert_eq!(text_field(&Some(Scalar::Text("  ".to_owned()))), None);
    assert_eq!(text_field(&Some(Scalar::Number("12".to_owned()))), Some("12".to_owned()));
    assert_eq!(text_field(&Some(Scalar::Bool(true))), None);
    assert_eq!(number_field(&Some(Scalar::Text(" 42 ".to_owned()))), 42);
    assert_eq!(number_field(&Some(Scalar::Number("-1".to_owned()))), 0);
    assert_eq!(number_field(&None), 0);
    assert_eq!(flag_field(&Some(Scalar::Text("true".to_owned()))), Some(true));
    assert_eq!(flag_field(&Some(Scalar::Text("0".to_owned()))), Some(false));
    assert_eq!(flag_field(&Some(Scalar::Text("maybe".to_owned()))), None);
    assert_eq!(flag_field(&Some(Scalar::Number("2".to_owned()))), Some(true));
    assert_eq!(flag_field(&Some(Scalar::Other)), None);
}

#[test]
fn only_real_devices_count_for_rates() {
    assert_eq!(
        eligible_network_interfaces(&vec![
            ("lo".to_owned(), true),
            ("eth0".to_owned(), true),
            ("veth1".to_owned(), false),
        ]),
        Some(vec!["eth0".to_owned()])
    );
    assert_eq!(eligible_network_interfaces(&vec![("lo".to_owned(), true)]), None);
    assert_eq!(
        eligible_block_devices(&vec![
            ("sda".to_owned(), false, false),
            ("sda1".to_owned(), true, false),
            ("loop0".to_owned(), false, false),
            ("zram0".to_owned(), false, false),
            ("dm-0".to_owned(), false, true),
            ("nvme0n1".to_owned(), false, false),
        ]),
        Some(vec!["sda".to_owned(), "nvme0n1".to_owned()])
    );
    assert_eq!(eligible_block_devices(&vec![]), None);
}

#[test]
fn error_codes_follow_the_status() {
    assert_eq!(agent_code_for(400), "bad_request");
    assert_eq!(agent_code_for(401), "unauthorized");
    assert_eq!(server_code_for(401), "authentication_required");
    assert_eq!(server_code_for(413), "payload_too_large");
    assert_eq!(server_code_for(422), "invalid_request");
    assert_eq!(server_code_for(429), "rate_limited");
    assert_eq!(server_code_for(503), "internal_error");
    assert_eq!(server_code_for(418), "error");
}

#[test]
fn a_plain_text_error_gets_the_standard_shape() {
    assert!(needs_standard_shape(400, None));
    assert!(needs_standard_shape(422, Some("text/plain; charset=utf-8")));
    assert!(!needs_standard_shape(400, Some("application/json")));
    assert!(!needs_standard_shape(200, None));
    assert_eq!(error_message("  Failed to parse the request body  ", Some("Bad Request")), "Failed to parse the request body");
    assert_eq!(error_message("   ", Some("Method Not Allowed")), "Method Not Allowed");
    assert_eq!(error_message("", None), "error");
    assert_eq!(error_message(&"x".repeat(400), None).len(), 300);
    assert!(keeps_header("x-request-id"));
    assert!(!keeps_header("content-type"));
    assert!(!keeps_header("content-length"));
}

#[test]
fn the_confirm_list_names_only_known_operations() {
    let names = vec!["system_reboot".to_owned(), "service_stop".to_owned(), "system_reboot".to_owned()];
    assert_eq!(
        validated_confirm(&names),
        Ok(vec!["system_reboot".to_owned(), "service_stop".to_owned()])
    );
    let error = validated_confirm(&vec!["reboot".to_owned()]).expect_err("refused");
    assert!(error.starts_with("unknown operation \"reboot\" in [security] confirm (known: software_action,"), "{error}");
}

#[test]
fn a_confirmed_operation_needs_the_right_password() {
    let confirm = vec!["system_reboot".to_owned()];
    let mut verifier = Verifier::load("/v".to_owned(), Some(HASH.to_owned()), None, None, None);
    let mut events = EventBus::with_epoch("e".to_owned());
    let second = 1_000_000_000;

    assert!(authorize(&confirm, &mut verifier, &mut events, "service_stop", None, second, 1).is_ok());
    let refused = authorize(&confirm, &mut verifier, &mut events, "system_reboot", None, second, 2)
        .expect_err("a password is needed");
    assert_eq!(refused.message, PASSWORD_REQUIRED);
    assert!(authorize(&confirm, &mut verifier, &mut events, "system_reboot", Some("wrong"), second, 3).is_err());
    assert!(authorize(&confirm, &mut verifier, &mut events, "system_reboot", Some("password"), 2 * second, 4).is_ok());

    let batch = events.since(None, 0);
    assert_eq!(batch.events.len(), 2, "each refusal is recorded once");
    assert_eq!(batch.events[0].kind, "password_check");
    assert_eq!(batch.events[0].subject, "operation=system_reboot");
    assert_eq!(batch.events[0].result, EventResult::Rejected);

    let status = security_status(&verifier, &vec!["system_update".to_owned(), "service_stop".to_owned()], 0);
    assert!(status.verifier_provisioned);
    assert_eq!(status.locked_for_seconds, None);
    assert_eq!(status.confirm, vec!["service_stop".to_owned(), "system_update".to_owned()]);
}

#[test]
fn a_command_outcome_becomes_an_event() {
    let accepted = command_result_draft(
        "system_reboot",
        "req-1",
        "now",
        &Ok(CommandResult {
            command_id: "reboot-1-0".to_owned(),
            status: CommandStatus::Accepted,
            message: None,
        }),
    );
    assert_eq!(accepted.result, EventResult::Accepted);
    assert_eq!(accepted.command_id.as_deref(), Some("reboot-1-0"));
    assert_eq!(accepted.request_id.as_deref(), Some("req-1"));
    assert!(accepted.message.is_none());
    let rejected = command_result_draft(
        "system_reboot",
        "req-2",
        "now",
        &Err(deckox::agent::error::AgentError::forbidden("reboot is disabled")),
    );
    assert_eq!(rejected.result, EventResult::Rejected);
    assert_eq!(rejected.message.as_deref(), Some("reboot is disabled"));
    assert!(rejected.command_id.is_none());
}
