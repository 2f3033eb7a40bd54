//! The embedded collection script the remote strategy sends. From this
//! crate's point of view the script is a black box whose execution on the
//! target must print one JSON document in the canonical report shape.

use vstd::prelude::*;

verus! {

/// The collection script's text, for use in contracts.
pub open spec fn script_text() -> Seq<char> {
    "$ErrorActionPreference = 'Stop'\n$os = Get-CimInstance Win32_OperatingSystem\n$cs = Get-CimInstance Win32_ComputerSystem\n$cpu = Get-CimInstance Win32_Processor | Select-Object -First 1\n$total = [uint64]$cs.TotalPhysicalMemory\n$used = $total - [uint64]($os.FreePhysicalMemory * 1024)\n$nics = @(Get-NetIPAddress | ForEach-Object { [ordered]@{ name = $_.InterfaceAlias; ip_address = $_.IPAddress; ip_version = $(if ($_.AddressFamily -eq 'IPv4') { 'IPv4' } else { 'IPv6' }); mac_address = $null } })\n$system = [ordered]@{ os_name = $os.Caption; os_version = $os.Version; host_name = $env:COMPUTERNAME; cpu_info = $cpu.Name; cpu_physical_cores = $cpu.NumberOfCores; memory_total_bytes = $total; memory_used_bytes = $used; manufacturer = $cs.Manufacturer; model = $cs.Model; network_interfaces = $nics }\n$software = @(Get-ItemProperty 'HKLM:\\SOFTWARE\\Microsoft\\Windows\\CurrentVersion\\Uninstall\\*' | Where-Object DisplayName | ForEach-Object { [ordered]@{ name = $_.DisplayName; version = $_.DisplayVersion; vendor = $_.Publisher; install_date = $null } })\n$industrial = @()\n$report = [ordered]@{ system = $system; software = $software; industrial = $industrial; timestamp = (Get-Date).ToUniversalTime().ToString('yyyy-MM-ddTHH:mm:ssZ') }\n$report | ConvertTo-Json -Depth 5 -Compress\n"@
}

/// The collection script the remote strategy executes on the target.
pub fn collection_script() -> (s: &'static str)
    ensures
        s@ == script_text(),
{
    "$ErrorActionPreference = 'Stop'\n$os = Get-CimInstance Win32_OperatingSystem\n$cs = Get-CimInstance Win32_ComputerSystem\n$cpu = Get-CimInstance Win32_Processor | Select-Object -First 1\n$total = [uint64]$cs.TotalPhysicalMemory\n$used = $total - [uint64]($os.FreePhysicalMemory * 1024)\n$nics = @(Get-NetIPAddress | ForEach-Object { [ordered]@{ name = $_.InterfaceAlias; ip_address = $_.IPAddress; ip_version = $(if ($_.AddressFamily -eq 'IPv4') { 'IPv4' } else { 'IPv6' }); mac_address = $null } })\n$system = [ordered]@{ os_name = $os.Caption; os_version = $os.Version; host_name = $env:COMPUTERNAME; cpu_info = $cpu.Name; cpu_physical_cores = $cpu.NumberOfCores; memory_total_bytes = $total; memory_used_bytes = $used; manufacturer = $cs.Manufacturer; model = $cs.Model; network_interfaces = $nics }\n$software = @(Get-ItemProperty 'HKLM:\\SOFTWARE\\Microsoft\\Windows\\CurrentVersion\\Uninstall\\*' | Where-Object DisplayName | ForEach-Object { [ordered]@{ name = $_.DisplayName; version = $_.DisplayVersion; vendor = $_.Publisher; install_date = $null } })\n$industrial = @()\n$report = [ordered]@{ system = $system; software = $software; industrial = $industrial; timestamp = (Get-Date).ToUniversalTime().ToString('yyyy-MM-ddTHH:mm:ssZ') }\n$report | ConvertTo-Json -Depth 5 -Compress\n"
}

} // verus!
