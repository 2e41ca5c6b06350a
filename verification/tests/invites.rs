use manage::error::Error;
use manage::invites::{
    invite_create_result, invite_create_script, invite_delete_result, invite_delete_script,
    invite_list_result, invite_list_script, ExecOutcome, InviteParameters,
};

fn attached(bytes: &[u8]) -> ExecOutcome {
    ExecOutcome::Attached {
        output: bytes.to_vec(),
    }
}

#[test]
fn create_script_substitutes_uses_and_perms() {
    let script = invite_create_script(Some(3), 5);
    assert!(script.contains(".run(id, 3, 5);"));
    let unlimited = invite_create_script(None, 0);
    assert!(unlimited.contains(".run(id, null, 0);"));
    assert!(unlimited.contains("insert into invites"));
    assert!(unlimited.contains("/mayo/.data/db.sqlite"));
}

#[test]
fn list_script_reads_all_rows() {
    let script = invite_list_script();
    assert!(script.contains("select id, uses, perms from invites;"));
    assert!(script.contains("JSON.stringify"));
}

#[test]
fn delete_script_substitutes_the_id() {
    let script = invite_delete_script("0192d5e1-a2b3-7c89-A1-x").unwrap();
    assert!(script.contains("delete from invites where id = ?1;"));
    assert!(script.contains(".run(\"0192d5e1-a2b3-7c89-A1-x\");"));
}

#[test]
fn delete_script_refuses_hostile_ids() {
    assert!(invite_delete_script("").is_none());
    assert!(invite_delete_script("abc\"); drop table invites; --").is_none());
    assert!(invite_delete_script("id with space").is_none());
    assert!(invite_delete_script("back\\slash").is_none());
}

#[test]
fn create_result_trims_the_id() {
    let out = invite_create_result(&attached(b"  0192d5e1-a2b3\n")).unwrap();
    assert_eq!(out, "0192d5e1-a2b3");
}

#[test]
fn list_result_of_zero_rows_is_empty() {
    let got = invite_list_result(&attached(b"[]")).unwrap();
    assert!(got.is_empty());
}

#[test]
fn list_result_parses_one_record() {
    let json = b"[{\"id\":\"abc-123\",\"uses\":3,\"perms\":5}]";
    let got = invite_list_result(&attached(json)).unwrap();
    assert_eq!(got.len(), 1);
    assert_eq!(got[0].id, "abc-123");
    assert_eq!(got[0].uses, Some(3));
    assert_eq!(got[0].perms, 5);
}

#[test]
fn list_result_parses_unlimited_uses_and_many_records() {
    let json = b"[{\"id\":\"a\",\"uses\":null,\"perms\":0},{\"id\":\"b\",\"uses\":7,\"perms\":2}]";
    let got = invite_list_result(&attached(json)).unwrap();
    assert_eq!(got.len(), 2);
    assert_eq!(got[0].id, "a");
    assert_eq!(got[0].uses, None);
    assert_eq!(got[1].id, "b");
    assert_eq!(got[1].uses, Some(7));
    assert_eq!(got[1].perms, 2);
}

#[test]
fn list_result_rejects_malformed_output() {
    assert_eq!(
        invite_list_result(&attached(b"[{]")),
        Err(Error::MalformedRemoteOutput)
    );
    assert_eq!(
        invite_list_result(&attached(b"not json")),
        Err(Error::MalformedRemoteOutput)
    );
    assert_eq!(
        invite_list_result(&attached(b"[] trailing")),
        Err(Error::MalformedRemoteOutput)
    );
}

#[test]
fn detached_exec_fails_every_operation() {
    assert_eq!(
        invite_create_result(&ExecOutcome::Detached),
        Err(Error::RemoteExecutionDetached)
    );
    assert_eq!(
        invite_list_result(&ExecOutcome::Detached),
        Err(Error::RemoteExecutionDetached)
    );
    assert_eq!(
        invite_delete_result(&ExecOutcome::Detached),
        Err(Error::RemoteExecutionDetached)
    );
}

#[test]
fn delete_succeeds_once_output_is_drained() {
    assert_eq!(invite_delete_result(&attached(b"")), Ok(()));
    assert_eq!(invite_delete_result(&attached(b"whatever")), Ok(()));
}

#[test]
fn invite_parameters_carry_over() {
    let p = InviteParameters {
        uses: Some(9),
        perms: 1,
    };
    assert_eq!(p.uses, Some(9));
    assert_eq!(p.perms, 1);
}
