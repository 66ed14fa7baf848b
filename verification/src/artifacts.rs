//! The catalog of artifacts that a triage collects by default.

use vstd::prelude::*;
use crate::text::texts;

verus! {

/// The change journal of the system drive.
pub const USN_JRNL_PATH: &'static str = r"%SYSTEMDRIVE%\$Extend\$UsnJrnl:$J";

/// The size record of the change journal of the system drive.
pub const USN_JRNL_MAX_PATH: &'static str = r"%SYSTEMDRIVE%\$Extend\$UsnJrnl:$MAX";

/// The templates of the default catalog, in order.
pub open spec fn default_collection_paths() -> Seq<Seq<char>> {
    seq![
        r"%SYSTEMDRIVE%\$LogFile"@,
        r"%SYSTEMDRIVE%\$MFT"@,
        r"%SYSTEMROOT%\Tasks\**"@,
        r"%SYSTEMROOT%\Prefetch\**"@,
        r"%SYSTEMROOT%\System32\sru\**"@,
        r"%SYSTEMROOT%\System32\winevt\Logs\**"@,
        r"%SYSTEMROOT%\System32\Tasks\**"@,
        r"%SYSTEMROOT%\System32\Logfiles\W3SVC1\**"@,
        r"%SYSTEMROOT%\System32\drivers\etc\hosts"@,
        r"%SYSTEMROOT%\System32\config\SAM"@,
        r"%SYSTEMROOT%\System32\config\SYSTEM"@,
        r"%SYSTEMROOT%\System32\config\SECURITY"@,
        r"%SYSTEMROOT%\System32\config\SOFTWARE"@,
        r"%SYSTEMROOT%\System32\config\SAM.LOG1"@,
        r"%SYSTEMROOT%\System32\config\SYSTEM.LOG1"@,
        r"%SYSTEMROOT%\System32\config\SECURITY.LOG1"@,
        r"%SYSTEMROOT%\System32\config\SOFTWARE.LOG1"@,
        r"%SYSTEMROOT%\System32\config\SAM.LOG2"@,
        r"%SYSTEMROOT%\System32\config\SYSTEM.LOG2"@,
        r"%SYSTEMROOT%\System32\config\SECURITY.LOG2"@,
        r"%SYSTEMROOT%\System32\config\SOFTWARE.LOG2"@,
        r"%SYSTEMROOT%\System32\LogFiles\SUM\**"@,
        r"%SYSTEMROOT%\Appcompat\Programs\**"@,
        r"%SYSTEMROOT%\SchedLgU.txt"@,
        r"%SYSTEMROOT%\inf\setupapi.dev.log"@,
        r"%PROGRAMDATA%\Microsoft\Windows\Start Menu\Programs\Startup\**"@,
        r"%SYSTEMDRIVE%\$Recycle.Bin\**\$I*"@,
        r"%SYSTEMDRIVE%\$Recycle.Bin\$I*"@,
        r"%USERHOME%\NTUser.DAT"@,
        r"%USERHOME%\NTUser.DAT.LOG1"@,
        r"%USERHOME%\NTUser.DAT.LOG2"@,
        r"%USERHOME%\AppData\Roaming\Microsoft\Windows\Recent\**"@,
        r"%USERHOME%\AppData\Roaming\Microsoft\Windows\PowerShell\PSReadline\ConsoleHost_history.txt"@,
        r"%USERHOME%\AppData\Roaming\Mozilla\Firefox\Profiles\**"@,
        r"%USERHOME%\AppData\Local\Microsoft\Windows\WebCache\**"@,
        r"%USERHOME%\AppData\Local\Microsoft\Windows\Explorer\**"@,
        r"%USERHOME%\AppData\Local\Microsoft\Windows\UsrClass.dat"@,
        r"%USERHOME%\AppData\Local\Microsoft\Windows\UsrClass.dat.LOG1"@,
        r"%USERHOME%\AppData\Local\Microsoft\Windows\UsrClass.dat.LOG2"@,
        r"%USERHOME%\AppData\Local\ConnectedDevicesPlatform\**"@,
        r"%USERHOME%\AppData\Local\Google\Chrome\User Data\Default\History\**"@,
        r"%USERHOME%\AppData\Local\Microsoft\Edge\User Data\Default\History\**"@,
    ]
}

/// The default catalog: the templates of the artifacts that are collected
/// when no other list is given.
pub fn get_default_collection_paths() -> (r: Vec<String>)
    ensures
        texts(r@) == default_collection_paths(),
{
    let mut vc: Vec<String> = Vec::new();
    vc.push(r"%SYSTEMDRIVE%\$LogFile".to_string());
    vc.push(r"%SYSTEMDRIVE%\$MFT".to_string());
    vc.push(r"%SYSTEMROOT%\Tasks\**".to_string());
    vc.push(r"%SYSTEMROOT%\Prefetch\**".to_string());
    vc.push(r"%SYSTEMROOT%\System32\sru\**".to_string());
    vc.push(r"%SYSTEMROOT%\System32\winevt\Logs\**".to_string());
    vc.push(r"%SYSTEMROOT%\System32\Tasks\**".to_string());
    vc.push(r"%SYSTEMROOT%\System32\Logfiles\W3SVC1\**".to_string());
    vc.push(r"%SYSTEMROOT%\System32\drivers\etc\hosts".to_string());
    vc.push(r"%SYSTEMROOT%\System32\config\SAM".to_string());
    vc.push(r"%SYSTEMROOT%\System32\config\SYSTEM".to_string());
    vc.push(r"%SYSTEMROOT%\System32\config\SECURITY".to_string());
    vc.push(r"%SYSTEMROOT%\System32\config\SOFTWARE".to_string());
    vc.push(r"%SYSTEMROOT%\System32\config\SAM.LOG1".to_string());
    vc.push(r"%SYSTEMROOT%\System32\config\SYSTEM.LOG1".to_string());
    vc.push(r"%SYSTEMROOT%\System32\config\SECURITY.LOG1".to_string());
    vc.push(r"%SYSTEMROOT%\System32\config\SOFTWARE.LOG1".to_string());
    vc.push(r"%SYSTEMROOT%\System32\config\SAM.LOG2".to_string());
    vc.push(r"%SYSTEMROOT%\System32\config\SYSTEM.LOG2".to_string());
    vc.push(r"%SYSTEMROOT%\System32\config\SECURITY.LOG2".to_string());
    vc.push(r"%SYSTEMROOT%\System32\config\SOFTWARE.LOG2".to_string());
    vc.push(r"%SYSTEMROOT%\System32\LogFiles\SUM\**".to_string());
    vc.push(r"%SYSTEMROOT%\Appcompat\Programs\**".to_string());
    vc.push(r"%SYSTEMROOT%\SchedLgU.txt".to_string());
    vc.push(r"%SYSTEMROOT%\inf\setupapi.dev.log".to_string());
    vc.push(r"%PROGRAMDATA%\Microsoft\Windows\Start Menu\Programs\Startup\**".to_string());
    vc.push(r"%SYSTEMDRIVE%\$Recycle.Bin\**\$I*".to_string());
    vc.push(r"%SYSTEMDRIVE%\$Recycle.Bin\$I*".to_string());
    vc.push(r"%USERHOME%\NTUser.DAT".to_string());
    vc.push(r"%USERHOME%\NTUser.DAT.LOG1".to_string());
    vc.push(r"%USERHOME%\NTUser.DAT.LOG2".to_string());
    vc.push(r"%USERHOME%\AppData\Roaming\Microsoft\Windows\Recent\**".to_string());
    vc.push(r"%USERHOME%\AppData\Roaming\Microsoft\Windows\PowerShell\PSReadline\ConsoleHost_history.txt".to_string());
    vc.push(r"%USERHOME%\AppData\Roaming\Mozilla\Firefox\Profiles\**".to_string());
    vc.push(r"%USERHOME%\AppData\Local\Microsoft\Windows\WebCache\**".to_string());
    vc.push(r"%USERHOME%\AppData\Local\Microsoft\Windows\Explorer\**".to_string());
    vc.push(r"%USERHOME%\AppData\Local\Microsoft\Windows\UsrClass.dat".to_string());
    vc.push(r"%USERHOME%\AppData\Local\Microsoft\Windows\UsrClass.dat.LOG1".to_string());
    vc.push(r"%USERHOME%\AppData\Local\Microsoft\Windows\UsrClass.dat.LOG2".to_string());
    vc.push(r"%USERHOME%\AppData\Local\ConnectedDevicesPlatform\**".to_string());
    vc.push(r"%USERHOME%\AppData\Local\Google\Chrome\User Data\Default\History\**".to_string());
    vc.push(r"%USERHOME%\AppData\Local\Microsoft\Edge\User Data\Default\History\**".to_string());
    assert(texts(vc@) =~= default_collection_paths());
    vc
}

} // verus!
