use orbit::tool::{
    adb_connect, adb_connect_command, adb_pair, adb_pair_command, command, ToolOutput,
};

fn output(success: bool, stdout: &str, stderr: &str) -> ToolOutput {
    ToolOutput { success, stdout: stdout.to_string(), stderr: stderr.to_string() }
}

#[test]
fn command_keeps_program_and_arguments() {
    let cmd = command("tool", &["-a", "b c", ""]);
    assert_eq!(cmd.program, "tool");
    assert_eq!(cmd.args, vec!["-a", "b c", ""]);
    assert!(command("tool", &[]).args.is_empty());
}

#[test]
fn connect_command_names_the_address() {
    let cmd = adb_connect_command("192.168.1.7:5555");
    assert_eq!(cmd.program, "adb");
    assert_eq!(cmd.args, vec!["connect", "192.168.1.7:5555"]);
}

#[test]
fn pair_command_names_address_and_code() {
    let cmd = adb_pair_command("192.168.1.7:37000", "123456");
    assert_eq!(cmd.program, "adb");
    assert_eq!(cmd.args, vec!["pair", "192.168.1.7:37000", "123456"]);
}

#[test]
fn connect_reports_standard_output_either_way() {
    assert_eq!(adb_connect(Ok(output(true, "connected to x\n", "noise"))), Ok("connected to x\n".to_string()));
    assert_eq!(adb_connect(Ok(output(false, "failed to connect\n", "noise"))), Err("failed to connect\n".to_string()));
    assert_eq!(adb_connect(Err("not found".to_string())), Err("not found".to_string()));
}

#[test]
fn pair_reports_standard_output_either_way() {
    assert_eq!(adb_pair(Ok(output(true, "Successfully paired\n", ""))), Ok("Successfully paired\n".to_string()));
    assert_eq!(adb_pair(Ok(output(false, "Failed: wrong code\n", "e"))), Err("Failed: wrong code\n".to_string()));
    assert_eq!(adb_pair(Err("not found".to_string())), Err("not found".to_string()));
}
