//! The fixed Rust source that every generated program starts with: the
//! helpers that checked indexing, slicing, maps and the host intrinsics
//! compile to.
use vstd::prelude::*;

verus! {

/// The runtime helpers every generated program starts with, appended to `s`.
pub open spec fn with_prelude(s: Seq<char>) -> Seq<char> {
    s
        + "#[allow(unused_imports)]\n"@
        + "use std::collections::HashMap;\n\n"@
        + "#[allow(dead_code)]\n"@
        + "fn axiom_array_get<T: Copy>(values: &[T], index: i64) -> T {\n"@
        + "    let index = usize::try_from(index).expect(\"array index must be non-negative\");\n"@
        + "    values[index]\n"@
        + "}\n\n"@
        + "#[allow(dead_code)]\n"@
        + "fn axiom_array_take<T>(values: Vec<T>, index: i64) -> T {\n"@
        + "    let index = usize::try_from(index).expect(\"array index must be non-negative\");\n"@
        + "    values.into_iter().nth(index).expect(\"array index out of bounds\")\n"@
        + "}\n\n"@
        + "#[allow(dead_code)]\n"@
        + "fn axiom_array_slice_bounds(len: usize, start: Option<i64>, end: Option<i64>) -> (usize, usize) {\n"@
        + "    let start = start.unwrap_or(0);\n"@
        + "    let end = end.unwrap_or(len as i64);\n"@
        + "    let start = usize::try_from(start).expect(\"array slice start must be non-negative\");\n"@
        + "    let end = usize::try_from(end).expect(\"array slice end must be non-negative\");\n"@
        + "    assert!(start <= end, \"array slice start must be <= end\");\n"@
        + "    assert!(end <= len, \"array slice end out of bounds\");\n"@
        + "    (start, end)\n"@
        + "}\n\n"@
        + "#[allow(dead_code)]\n"@
        + "fn axiom_slice_view<'a, T>(values: &'a [T], start: Option<i64>, end: Option<i64>) -> &'a [T] {\n"@
        + "    let (start, end) = axiom_array_slice_bounds(values.len(), start, end);\n"@
        + "    &values[start..end]\n"@
        + "}\n\n"@
        + "#[allow(dead_code)]\n"@
        + "fn axiom_slice_view_mut<'a, T>(values: &'a mut [T], start: Option<i64>, end: Option<i64>) -> &'a mut [T] {\n"@
        + "    let (start, end) = axiom_array_slice_bounds(values.len(), start, end);\n"@
        + "    &mut values[start..end]\n"@
        + "}\n\n"@
        + "#[allow(dead_code)]\n"@
        + "fn axiom_last_index(len: usize) -> i64 {\n"@
        + "    assert!(len > 0, \"collection must not be empty\");\n"@
        + "    (len - 1) as i64\n"@
        + "}\n\n"@
        + "#[allow(dead_code)]\n"@
        + "fn axiom_io_eprintln(text: String) -> i64 {\n"@
        + "    use std::io::Write;\n"@
        + "    let stderr = std::io::stderr();\n"@
        + "    let mut handle = stderr.lock();\n"@
        + "    match handle.write_all(text.as_bytes()).and_then(|_| handle.write_all(b\"\\n\")) {\n"@
        + "        Ok(()) => (text.len() as i64) + 1,\n"@
        + "        Err(_) => -1,\n"@
        + "    }\n"@
        + "}\n\n"@
        + "#[allow(dead_code)]\n"@
        + "fn axiom_fs_read(path: String) -> Option<String> {\n"@
        + "    std::fs::read_to_string(path).ok()\n"@
        + "}\n\n"@
        + "#[allow(dead_code)]\n"@
        + "fn axiom_net_resolve(host: String) -> Option<String> {\n"@
        + "    use std::net::ToSocketAddrs;\n"@
        + "    (host.as_str(), 0)\n"@
        + "        .to_socket_addrs()\n"@
        + "        .ok()?\n"@
        + "        .next()\n"@
        + "        .map(|addr| addr.ip().to_string())\n"@
        + "}\n\n"@
        + "#[allow(dead_code)]\n"@
        + "fn axiom_http_get(url: String) -> Option<String> {\n"@
        + "    use std::io::{Read, Write};\n"@
        + "    use std::net::TcpStream;\n"@
        + "    use std::time::Duration;\n"@
        + "    // Stage1 HTTP client: http:// only, HTTP/1.0 with\n"@
        + "    // Connection: close so we can read the body to EOF\n"@
        + "    // without parsing Content-Length or chunked transfer\n"@
        + "    // encoding. Returns the response body on 2xx, None on\n"@
        + "    // any parse / connect / non-2xx error. HTTPS and TLS\n"@
        + "    // are deliberately out of scope at this slice.\n"@
        + "    let rest = url.strip_prefix(\"http://\")?;\n"@
        + "    let (host_port, path) = match rest.find('/') {\n"@
        + "        Some(idx) => (&rest[..idx], &rest[idx..]),\n"@
        + "        None => (rest, \"/\"),\n"@
        + "    };\n"@
        + "    if host_port.is_empty() {\n"@
        + "        return None;\n"@
        + "    }\n"@
        + "    let (host, port) = match host_port.rfind(':') {\n"@
        + "        Some(idx) => {\n"@
        + "            let parsed: u16 = host_port[idx + 1..].parse().ok()?;\n"@
        + "            (&host_port[..idx], parsed)\n"@
        + "        }\n"@
        + "        None => (host_port, 80u16),\n"@
        + "    };\n"@
        + "    let mut stream = TcpStream::connect((host, port)).ok()?;\n"@
        + "    stream.set_read_timeout(Some(Duration::from_secs(5))).ok()?;\n"@
        + "    stream.set_write_timeout(Some(Duration::from_secs(5))).ok()?;\n"@
        + "    let request = format!(\n"@
        + "        \"GET {} HTTP/1.0\\r\\nHost: {}\\r\\nUser-Agent: axiom-stage1/0.1\\r\\nConnection: close\\r\\n\\r\\n\",\n"@
        + "        path, host\n"@
        + "    );\n"@
        + "    stream.write_all(request.as_bytes()).ok()?;\n"@
        + "    let mut raw = Vec::new();\n"@
        + "    stream.read_to_end(&mut raw).ok()?;\n"@
        + "    let sep = raw.windows(4).position(|w| w == b\"\\r\\n\\r\\n\")?;\n"@
        + "    let head = &raw[..sep];\n"@
        + "    let body = &raw[sep + 4..];\n"@
        + "    let status_line_end = head.iter().position(|b| *b == b'\\r').unwrap_or(head.len());\n"@
        + "    let status_line = std::str::from_utf8(&head[..status_line_end]).ok()?;\n"@
        + "    let mut parts = status_line.splitn(3, ' ');\n"@
        + "    let _version = parts.next()?;\n"@
        + "    let status_code: u16 = parts.next()?.parse().ok()?;\n"@
        + "    if !(200..300).contains(&status_code) {\n"@
        + "        return None;\n"@
        + "    }\n"@
        + "    String::from_utf8(body.to_vec()).ok()\n"@
        + "}\n\n"@
        + "#[allow(dead_code)]\n"@
        + "fn axiom_process_status(program: String) -> i64 {\n"@
        + "    std::process::Command::new(program)\n"@
        + "        .status()\n"@
        + "        .ok()\n"@
        + "        .and_then(|status| status.code())\n"@
        + "        .map(i64::from)\n"@
        + "        .unwrap_or(-1)\n"@
        + "}\n\n"@
        + "#[allow(dead_code)]\n"@
        + "fn axiom_clock_now_ms() -> i64 {\n"@
        + "    use std::time::{SystemTime, UNIX_EPOCH};\n"@
        + "    let now = SystemTime::now()\n"@
        + "        .duration_since(UNIX_EPOCH)\n"@
        + "        .expect(\"system clock must be after unix epoch\");\n"@
        + "    now.as_millis() as i64\n"@
        + "}\n\n"@
        + "#[allow(dead_code)]\n"@
        + "fn axiom_env_get(name: String) -> Option<String> {\n"@
        + "    std::env::var(name).ok()\n"@
        + "}\n\n"@
        + "#[allow(dead_code)]\n"@
        + "fn axiom_crypto_sha256(input: String) -> String {\n"@
        + "    const K: [u32; 64] = [\n"@
        + "        0x428a2f98, 0x71374491, 0xb5c0fbcf, 0xe9b5dba5,\n"@
        + "        0x3956c25b, 0x59f111f1, 0x923f82a4, 0xab1c5ed5,\n"@
        + "        0xd807aa98, 0x12835b01, 0x243185be, 0x550c7dc3,\n"@
        + "        0x72be5d74, 0x80deb1fe, 0x9bdc06a7, 0xc19bf174,\n"@
        + "        0xe49b69c1, 0xefbe4786, 0x0fc19dc6, 0x240ca1cc,\n"@
        + "        0x2de92c6f, 0x4a7484aa, 0x5cb0a9dc, 0x76f988da,\n"@
        + "        0x983e5152, 0xa831c66d, 0xb00327c8, 0xbf597fc7,\n"@
        + "        0xc6e00bf3, 0xd5a79147, 0x06ca6351, 0x14292967,\n"@
        + "        0x27b70a85, 0x2e1b2138, 0x4d2c6dfc, 0x53380d13,\n"@
        + "        0x650a7354, 0x766a0abb, 0x81c2c92e, 0x92722c85,\n"@
        + "        0xa2bfe8a1, 0xa81a664b, 0xc24b8b70, 0xc76c51a3,\n"@
        + "        0xd192e819, 0xd6990624, 0xf40e3585, 0x106aa070,\n"@
        + "        0x19a4c116, 0x1e376c08, 0x2748774c, 0x34b0bcb5,\n"@
        + "        0x391c0cb3, 0x4ed8aa4a, 0x5b9cca4f, 0x682e6ff3,\n"@
        + "        0x748f82ee, 0x78a5636f, 0x84c87814, 0x8cc70208,\n"@
        + "        0x90befffa, 0xa4506ceb, 0xbef9a3f7, 0xc67178f2,\n"@
        + "    ];\n"@
        + "    let mut state: [u32; 8] = [\n"@
        + "        0x6a09e667, 0xbb67ae85, 0x3c6ef372, 0xa54ff53a,\n"@
        + "        0x510e527f, 0x9b05688c, 0x1f83d9ab, 0x5be0cd19,\n"@
        + "    ];\n"@
        + "    let mut data = input.into_bytes();\n"@
        + "    let bit_len = (data.len() as u64) * 8;\n"@
        + "    data.push(0x80);\n"@
        + "    while data.len() % 64 != 56 {\n"@
        + "        data.push(0);\n"@
        + "    }\n"@
        + "    data.extend_from_slice(&bit_len.to_be_bytes());\n"@
        + "    for chunk in data.chunks(64) {\n"@
        + "        let mut schedule = [0u32; 64];\n"@
        + "        for (index, word) in schedule.iter_mut().take(16).enumerate() {\n"@
        + "            let start = index * 4;\n"@
        + "            *word = u32::from_be_bytes([\n"@
        + "                chunk[start],\n"@
        + "                chunk[start + 1],\n"@
        + "                chunk[start + 2],\n"@
        + "                chunk[start + 3],\n"@
        + "            ]);\n"@
        + "        }\n"@
        + "        for index in 16..64 {\n"@
        + "            let s0 = schedule[index - 15].rotate_right(7)\n"@
        + "                ^ schedule[index - 15].rotate_right(18)\n"@
        + "                ^ (schedule[index - 15] >> 3);\n"@
        + "            let s1 = schedule[index - 2].rotate_right(17)\n"@
        + "                ^ schedule[index - 2].rotate_right(19)\n"@
        + "                ^ (schedule[index - 2] >> 10);\n"@
        + "            schedule[index] = schedule[index - 16]\n"@
        + "                .wrapping_add(s0)\n"@
        + "                .wrapping_add(schedule[index - 7])\n"@
        + "                .wrapping_add(s1);\n"@
        + "        }\n"@
        + "        let mut a = state[0];\n"@
        + "        let mut b = state[1];\n"@
        + "        let mut c = state[2];\n"@
        + "        let mut d = state[3];\n"@
        + "        let mut e = state[4];\n"@
        + "        let mut f = state[5];\n"@
        + "        let mut g = state[6];\n"@
        + "        let mut h = state[7];\n"@
        + "        for index in 0..64 {\n"@
        + "            let sigma1 = e.rotate_right(6) ^ e.rotate_right(11) ^ e.rotate_right(25);\n"@
        + "            let choice = (e & f) ^ ((!e) & g);\n"@
        + "            let temp1 = h\n"@
        + "                .wrapping_add(sigma1)\n"@
        + "                .wrapping_add(choice)\n"@
        + "                .wrapping_add(K[index])\n"@
        + "                .wrapping_add(schedule[index]);\n"@
        + "            let sigma0 = a.rotate_right(2) ^ a.rotate_right(13) ^ a.rotate_right(22);\n"@
        + "            let majority = (a & b) ^ (a & c) ^ (b & c);\n"@
        + "            let temp2 = sigma0.wrapping_add(majority);\n"@
        + "            h = g;\n"@
        + "            g = f;\n"@
        + "            f = e;\n"@
        + "            e = d.wrapping_add(temp1);\n"@
        + "            d = c;\n"@
        + "            c = b;\n"@
        + "            b = a;\n"@
        + "            a = temp1.wrapping_add(temp2);\n"@
        + "        }\n"@
        + "        state[0] = state[0].wrapping_add(a);\n"@
        + "        state[1] = state[1].wrapping_add(b);\n"@
        + "        state[2] = state[2].wrapping_add(c);\n"@
        + "        state[3] = state[3].wrapping_add(d);\n"@
        + "        state[4] = state[4].wrapping_add(e);\n"@
        + "        state[5] = state[5].wrapping_add(f);\n"@
        + "        state[6] = state[6].wrapping_add(g);\n"@
        + "        state[7] = state[7].wrapping_add(h);\n"@
        + "    }\n"@
        + "    let mut output = String::new();\n"@
        + "    for value in state {\n"@
        + "        output.push_str(&format!(\"{value:08x}\"));\n"@
        + "    }\n"@
        + "    output\n"@
        + "}\n\n"@
        + "#[allow(dead_code)]\n"@
        + "fn axiom_map_get<K: Eq + std::hash::Hash, V: Copy>(values: &HashMap<K, V>, key: &K) -> V {\n"@
        + "    *values.get(key).expect(\"map key not found\")\n"@
        + "}\n\n"@
        + "#[allow(dead_code)]\n"@
        + "fn axiom_map_take<K: Eq + std::hash::Hash, V>(mut values: HashMap<K, V>, key: &K) -> V {\n"@
        + "    values.remove(key).expect(\"map key not found\")\n"@
        + "}\n\n"@
}

/// Appends the runtime helpers every generated program starts with.
pub fn push_prelude(out: &mut String)
    ensures
        final(out)@ == with_prelude(old(out)@),
{
    out.append("#[allow(unused_imports)]\n");
    out.append("use std::collections::HashMap;\n\n");
    out.append("#[allow(dead_code)]\n");
    out.append("fn axiom_array_get<T: Copy>(values: &[T], index: i64) -> T {\n");
    out.append("    let index = usize::try_from(index).expect(\"array index must be non-negative\");\n");
    out.append("    values[index]\n");
    out.append("}\n\n");
    out.append("#[allow(dead_code)]\n");
    out.append("fn axiom_array_take<T>(values: Vec<T>, index: i64) -> T {\n");
    out.append("    let index = usize::try_from(index).expect(\"array index must be non-negative\");\n");
    out.append("    values.into_iter().nth(index).expect(\"array index out of bounds\")\n");
    out.append("}\n\n");
    out.append("#[allow(dead_code)]\n");
    out.append("fn axiom_array_slice_bounds(len: usize, start: Option<i64>, end: Option<i64>) -> (usize, usize) {\n");
    out.append("    let start = start.unwrap_or(0);\n");
    out.append("    let end = end.unwrap_or(len as i64);\n");
    out.append("    let start = usize::try_from(start).expect(\"array slice start must be non-negative\");\n");
    out.append("    let end = usize::try_from(end).expect(\"array slice end must be non-negative\");\n");
    out.append("    assert!(start <= end, \"array slice start must be <= end\");\n");
    out.append("    assert!(end <= len, \"array slice end out of bounds\");\n");
    out.append("    (start, end)\n");
    out.append("}\n\n");
    out.append("#[allow(dead_code)]\n");
    out.append("fn axiom_slice_view<'a, T>(values: &'a [T], start: Option<i64>, end: Option<i64>) -> &'a [T] {\n");
    out.append("    let (start, end) = axiom_array_slice_bounds(values.len(), start, end);\n");
    out.append("    &values[start..end]\n");
    out.append("}\n\n");
    out.append("#[allow(dead_code)]\n");
    out.append("fn axiom_slice_view_mut<'a, T>(values: &'a mut [T], start: Option<i64>, end: Option<i64>) -> &'a mut [T] {\n");
    out.append("    let (start, end) = axiom_array_slice_bounds(values.len(), start, end);\n");
    out.append("    &mut values[start..end]\n");
    out.append("}\n\n");
    out.append("#[allow(dead_code)]\n");
    out.append("fn axiom_last_index(len: usize) -> i64 {\n");
    out.append("    assert!(len > 0, \"collection must not be empty\");\n");
    out.append("    (len - 1) as i64\n");
    out.append("}\n\n");
    out.append("#[allow(dead_code)]\n");
    out.append("fn axiom_io_eprintln(text: String) -> i64 {\n");
    out.append("    use std::io::Write;\n");
    out.append("    let stderr = std::io::stderr();\n");
    out.append("    let mut handle = stderr.lock();\n");
    out.append("    match handle.write_all(text.as_bytes()).and_then(|_| handle.write_all(b\"\\n\")) {\n");
    out.append("        Ok(()) => (text.len() as i64) + 1,\n");
    out.append("        Err(_) => -1,\n");
    out.append("    }\n");
    out.append("}\n\n");
    out.append("#[allow(dead_code)]\n");
    out.append("fn axiom_fs_read(path: String) -> Option<String> {\n");
    out.append("    std::fs::read_to_string(path).ok()\n");
    out.append("}\n\n");
    out.append("#[allow(dead_code)]\n");
    out.append("fn axiom_net_resolve(host: String) -> Option<String> {\n");
    out.append("    use std::net::ToSocketAddrs;\n");
    out.append("    (host.as_str(), 0)\n");
    out.append("        .to_socket_addrs()\n");
    out.append("        .ok()?\n");
    out.append("        .next()\n");
    out.append("        .map(|addr| addr.ip().to_string())\n");
    out.append("}\n\n");
    out.append("#[allow(dead_code)]\n");
    out.append("fn axiom_http_get(url: String) -> Option<String> {\n");
    out.append("    use std::io::{Read, Write};\n");
    out.append("    use std::net::TcpStream;\n");
    out.append("    use std::time::Duration;\n");
    out.append("    // Stage1 HTTP client: http:// only, HTTP/1.0 with\n");
    out.append("    // Connection: close so we can read the body to EOF\n");
    out.append("    // without parsing Content-Length or chunked transfer\n");
    out.append("    // encoding. Returns the response body on 2xx, None on\n");
    out.append("    // any parse / connect / non-2xx error. HTTPS and TLS\n");
    out.append("    // are deliberately out of scope at this slice.\n");
    out.append("    let rest = url.strip_prefix(\"http://\")?;\n");
    out.append("    let (host_port, path) = match rest.find('/') {\n");
    out.append("        Some(idx) => (&rest[..idx], &rest[idx..]),\n");
    out.append("        None => (rest, \"/\"),\n");
    out.append("    };\n");
    out.append("    if host_port.is_empty() {\n");
    out.append("        return None;\n");
    out.append("    }\n");
    out.append("    let (host, port) = match host_port.rfind(':') {\n");
    out.append("        Some(idx) => {\n");
    out.append("            let parsed: u16 = host_port[idx + 1..].parse().ok()?;\n");
    out.append("            (&host_port[..idx], parsed)\n");
    out.append("        }\n");
    out.append("        None => (host_port, 80u16),\n");
    out.append("    };\n");
    out.append("    let mut stream = TcpStream::connect((host, port)).ok()?;\n");
    out.append("    stream.set_read_timeout(Some(Duration::from_secs(5))).ok()?;\n");
    out.append("    stream.set_write_timeout(Some(Duration::from_secs(5))).ok()?;\n");
    out.append("    let request = format!(\n");
    out.append("        \"GET {} HTTP/1.0\\r\\nHost: {}\\r\\nUser-Agent: axiom-stage1/0.1\\r\\nConnection: close\\r\\n\\r\\n\",\n");
    out.append("        path, host\n");
    out.append("    );\n");
    out.append("    stream.write_all(request.as_bytes()).ok()?;\n");
    out.append("    let mut raw = Vec::new();\n");
    out.append("    stream.read_to_end(&mut raw).ok()?;\n");
    out.append("    let sep = raw.windows(4).position(|w| w == b\"\\r\\n\\r\\n\")?;\n");
    out.append("    let head = &raw[..sep];\n");
    out.append("    let body = &raw[sep + 4..];\n");
    out.append("    let status_line_end = head.iter().position(|b| *b == b'\\r').unwrap_or(head.len());\n");
    out.append("    let status_line = std::str::from_utf8(&head[..status_line_end]).ok()?;\n");
    out.append("    let mut parts = status_line.splitn(3, ' ');\n");
    out.append("    let _version = parts.next()?;\n");
    out.append("    let status_code: u16 = parts.next()?.parse().ok()?;\n");
    out.append("    if !(200..300).contains(&status_code) {\n");
    out.append("        return None;\n");
    out.append("    }\n");
    out.append("    String::from_utf8(body.to_vec()).ok()\n");
    out.append("}\n\n");
    out.append("#[allow(dead_code)]\n");
    out.append("fn axiom_process_status(program: String) -> i64 {\n");
    out.append("    std::process::Command::new(program)\n");
    out.append("        .status()\n");
    out.append("        .ok()\n");
    out.append("        .and_then(|status| status.code())\n");
    out.append("        .map(i64::from)\n");
    out.append("        .unwrap_or(-1)\n");
    out.append("}\n\n");
    out.append("#[allow(dead_code)]\n");
    out.append("fn axiom_clock_now_ms() -> i64 {\n");
    out.append("    use std::time::{SystemTime, UNIX_EPOCH};\n");
    out.append("    let now = SystemTime::now()\n");
    out.append("        .duration_since(UNIX_EPOCH)\n");
    out.append("        .expect(\"system clock must be after unix epoch\");\n");
    out.append("    now.as_millis() as i64\n");
    out.append("}\n\n");
    out.append("#[allow(dead_code)]\n");
    out.append("fn axiom_env_get(name: String) -> Option<String> {\n");
    out.append("    std::env::var(name).ok()\n");
    out.append("}\n\n");
    out.append("#[allow(dead_code)]\n");
    out.append("fn axiom_crypto_sha256(input: String) -> String {\n");
    out.append("    const K: [u32; 64] = [\n");
    out.append("        0x428a2f98, 0x71374491, 0xb5c0fbcf, 0xe9b5dba5,\n");
    out.append("        0x3956c25b, 0x59f111f1, 0x923f82a4, 0xab1c5ed5,\n");
    out.append("        0xd807aa98, 0x12835b01, 0x243185be, 0x550c7dc3,\n");
    out.append("        0x72be5d74, 0x80deb1fe, 0x9bdc06a7, 0xc19bf174,\n");
    out.append("        0xe49b69c1, 0xefbe4786, 0x0fc19dc6, 0x240ca1cc,\n");
    out.append("        0x2de92c6f, 0x4a7484aa, 0x5cb0a9dc, 0x76f988da,\n");
    out.append("        0x983e5152, 0xa831c66d, 0xb00327c8, 0xbf597fc7,\n");
    out.append("        0xc6e00bf3, 0xd5a79147, 0x06ca6351, 0x14292967,\n");
    out.append("        0x27b70a85, 0x2e1b2138, 0x4d2c6dfc, 0x53380d13,\n");
    out.append("        0x650a7354, 0x766a0abb, 0x81c2c92e, 0x92722c85,\n");
    out.append("        0xa2bfe8a1, 0xa81a664b, 0xc24b8b70, 0xc76c51a3,\n");
    out.append("        0xd192e819, 0xd6990624, 0xf40e3585, 0x106aa070,\n");
    out.append("        0x19a4c116, 0x1e376c08, 0x2748774c, 0x34b0bcb5,\n");
    out.append("        0x391c0cb3, 0x4ed8aa4a, 0x5b9cca4f, 0x682e6ff3,\n");
    out.append("        0x748f82ee, 0x78a5636f, 0x84c87814, 0x8cc70208,\n");
    out.append("        0x90befffa, 0xa4506ceb, 0xbef9a3f7, 0xc67178f2,\n");
    out.append("    ];\n");
    out.append("    let mut state: [u32; 8] = [\n");
    out.append("        0x6a09e667, 0xbb67ae85, 0x3c6ef372, 0xa54ff53a,\n");
    out.append("        0x510e527f, 0x9b05688c, 0x1f83d9ab, 0x5be0cd19,\n");
    out.append("    ];\n");
    out.append("    let mut data = input.into_bytes();\n");
    out.append("    let bit_len = (data.len() as u64) * 8;\n");
    out.append("    data.push(0x80);\n");
    out.append("    while data.len() % 64 != 56 {\n");
    out.append("        data.push(0);\n");
    out.append("    }\n");
    out.append("    data.extend_from_slice(&bit_len.to_be_bytes());\n");
    out.append("    for chunk in data.chunks(64) {\n");
    out.append("        let mut schedule = [0u32; 64];\n");
    out.append("        for (index, word) in schedule.iter_mut().take(16).enumerate() {\n");
    out.append("            let start = index * 4;\n");
    out.append("            *word = u32::from_be_bytes([\n");
    out.append("                chunk[start],\n");
    out.append("                chunk[start + 1],\n");
    out.append("                chunk[start + 2],\n");
    out.append("                chunk[start + 3],\n");
    out.append("            ]);\n");
    out.append("        }\n");
    out.append("        for index in 16..64 {\n");
    out.append("            let s0 = schedule[index - 15].rotate_right(7)\n");
    out.append("                ^ schedule[index - 15].rotate_right(18)\n");
    out.append("                ^ (schedule[index - 15] >> 3);\n");
    out.append("            let s1 = schedule[index - 2].rotate_right(17)\n");
    out.append("                ^ schedule[index - 2].rotate_right(19)\n");
    out.append("                ^ (schedule[index - 2] >> 10);\n");
    out.append("            schedule[index] = schedule[index - 16]\n");
    out.append("                .wrapping_add(s0)\n");
    out.append("                .wrapping_add(schedule[index - 7])\n");
    out.append("                .wrapping_add(s1);\n");
    out.append("        }\n");
    out.append("        let mut a = state[0];\n");
    out.append("        let mut b = state[1];\n");
    out.append("        let mut c = state[2];\n");
    out.append("        let mut d = state[3];\n");
    out.append("        let mut e = state[4];\n");
    out.append("        let mut f = state[5];\n");
    out.append("        let mut g = state[6];\n");
    out.append("        let mut h = state[7];\n");
    out.append("        for index in 0..64 {\n");
    out.append("            let sigma1 = e.rotate_right(6) ^ e.rotate_right(11) ^ e.rotate_right(25);\n");
    out.append("            let choice = (e & f) ^ ((!e) & g);\n");
    out.append("            let temp1 = h\n");
    out.append("                .wrapping_add(sigma1)\n");
    out.append("                .wrapping_add(choice)\n");
    out.append("                .wrapping_add(K[index])\n");
    out.append("                .wrapping_add(schedule[index]);\n");
    out.append("            let sigma0 = a.rotate_right(2) ^ a.rotate_right(13) ^ a.rotate_right(22);\n");
    out.append("            let majority = (a & b) ^ (a & c) ^ (b & c);\n");
    out.append("            let temp2 = sigma0.wrapping_add(majority);\n");
    out.append("            h = g;\n");
    out.append("            g = f;\n");
    out.append("            f = e;\n");
    out.append("            e = d.wrapping_add(temp1);\n");
    out.append("            d = c;\n");
    out.append("            c = b;\n");
    out.append("            b = a;\n");
    out.append("            a = temp1.wrapping_add(temp2);\n");
    out.append("        }\n");
    out.append("        state[0] = state[0].wrapping_add(a);\n");
    out.append("        state[1] = state[1].wrapping_add(b);\n");
    out.append("        state[2] = state[2].wrapping_add(c);\n");
    out.append("        state[3] = state[3].wrapping_add(d);\n");
    out.append("        state[4] = state[4].wrapping_add(e);\n");
    out.append("        state[5] = state[5].wrapping_add(f);\n");
    out.append("        state[6] = state[6].wrapping_add(g);\n");
    out.append("        state[7] = state[7].wrapping_add(h);\n");
    out.append("    }\n");
    out.append("    let mut output = String::new();\n");
    out.append("    for value in state {\n");
    out.append("        output.push_str(&format!(\"{value:08x}\"));\n");
    out.append("    }\n");
    out.append("    output\n");
    out.append("}\n\n");
    out.append("#[allow(dead_code)]\n");
    out.append("fn axiom_map_get<K: Eq + std::hash::Hash, V: Copy>(values: &HashMap<K, V>, key: &K) -> V {\n");
    out.append("    *values.get(key).expect(\"map key not found\")\n");
    out.append("}\n\n");
    out.append("#[allow(dead_code)]\n");
    out.append("fn axiom_map_take<K: Eq + std::hash::Hash, V>(mut values: HashMap<K, V>, key: &K) -> V {\n");
    out.append("    values.remove(key).expect(\"map key not found\")\n");
    out.append("}\n\n");
}

} // verus!
