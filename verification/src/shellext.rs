//! The registry entries behind the Explorer context menu (Windows).
use vstd::prelude::*;
use crate::text::{chars_of, string_of, extend_chars, replace_all, replace_all_exec, has_prefix, ascii_lower, ascii_lower_seq};
use crate::num::{decimal, hex_upper, zero_pad, digit_char, decimal_exec, hex_upper_exec, zero_pad_exec};
use crate::cli::{joined_lines, join_lines};

verus! {

/// One change to `HKEY_CURRENT_USER`.
#[derive(Debug)]
pub enum RegOp {
    /// Set value `name` (empty: the default value) of key `path` to `value`.
    Write { path: String, name: String, value: String },
    /// Delete key `path` with everything under it.
    Delete { path: String },
}

pub enum RegOpView {
    Write { path: Seq<char>, name: Seq<char>, value: Seq<char> },
    Delete { path: Seq<char> },
}

impl View for RegOp {
    type V = RegOpView;

    open spec fn view(&self) -> RegOpView {
        match self {
            RegOp::Write { path, name, value } => RegOpView::Write { path: path@, name: name@, value: value@ },
            RegOp::Delete { path } => RegOpView::Delete { path: path@ },
        }
    }
}

pub open spec fn op_views(ops: Seq<RegOp>) -> Seq<RegOpView> {
    ops.map_values(|o: RegOp| o@)
}

/// `S_OK`.
pub const S_OK: i32 = 0;

/// `E_FAIL`.
pub const E_FAIL: i32 = -2147467259i32;

/// The first three fields of the extension's class id.
pub const CLSID_DATA1: u32 = 0xD4E8F1A2u32;
pub const CLSID_DATA2: u16 = 0x3B5Cu16;
pub const CLSID_DATA3: u16 = 0x4D6Eu16;

/// The last eight bytes of the class id.
pub open spec fn clsid_data4() -> Seq<u8> {
    seq![0x9Fu8, 0x0Au8, 0x1Bu8, 0x2Cu8, 0x3Du8, 0x4Eu8, 0x5Fu8, 0x6Au8]
}

pub open spec fn hex_field(v: nat, width: nat) -> Seq<char> {
    zero_pad(hex_upper(v), width)
}

/// The class id as registry text: `{XXXXXXXX-XXXX-XXXX-XXXX-XXXXXXXXXXXX}`.
pub open spec fn clsid_text() -> Seq<char> {
    let d = clsid_data4();
    seq!['{'] + hex_field(CLSID_DATA1 as nat, 8) + seq!['-'] + hex_field(CLSID_DATA2 as nat, 4) + seq!['-']
        + hex_field(CLSID_DATA3 as nat, 4) + seq!['-'] + hex_field(d[0] as nat, 2) + hex_field(d[1] as nat, 2)
        + seq!['-'] + hex_field(d[2] as nat, 2) + hex_field(d[3] as nat, 2) + hex_field(d[4] as nat, 2)
        + hex_field(d[5] as nat, 2) + hex_field(d[6] as nat, 2) + hex_field(d[7] as nat, 2) + seq!['}']
}

fn hex_field_exec(v: u64, width: usize) -> (r: Vec<char>)
    ensures
        r@ == hex_field(v as nat, width as nat),
{
    zero_pad_exec(hex_upper_exec(v), width)
}

pub fn clsid_string() -> (r: String)
    ensures
        r@ == clsid_text(),
{
    let d: Vec<u8> = vec![0x9Fu8, 0x0Au8, 0x1Bu8, 0x2Cu8, 0x3Du8, 0x4Eu8, 0x5Fu8, 0x6Au8];
    assert(d@ =~= clsid_data4());
    let mut out: Vec<char> = Vec::new();
    out.push('{');
    extend_chars(&mut out, &hex_field_exec(CLSID_DATA1 as u64, 8));
    out.push('-');
    extend_chars(&mut out, &hex_field_exec(CLSID_DATA2 as u64, 4));
    out.push('-');
    extend_chars(&mut out, &hex_field_exec(CLSID_DATA3 as u64, 4));
    out.push('-');
    extend_chars(&mut out, &hex_field_exec(d[0] as u64, 2));
    extend_chars(&mut out, &hex_field_exec(d[1] as u64, 2));
    out.push('-');
    extend_chars(&mut out, &hex_field_exec(d[2] as u64, 2));
    extend_chars(&mut out, &hex_field_exec(d[3] as u64, 2));
    extend_chars(&mut out, &hex_field_exec(d[4] as u64, 2));
    extend_chars(&mut out, &hex_field_exec(d[5] as u64, 2));
    extend_chars(&mut out, &hex_field_exec(d[6] as u64, 2));
    extend_chars(&mut out, &hex_field_exec(d[7] as u64, 2));
    out.push('}');
    assert(out@ =~= clsid_text());
    string_of(&out)
}

/// The classic `*\shell` verb key.
pub open spec fn shell_verb_key() -> Seq<char> {
    "Software\\Classes\\*\\shell\\SuShare"@
}

/// The context-menu handler key.
pub open spec fn handler_key() -> Seq<char> {
    "Software\\Classes\\*\\shellex\\ContextMenuHandlers\\SuShare"@
}

/// The class key of the extension.
pub open spec fn class_key() -> Seq<char> {
    "Software\\Classes\\CLSID\\"@ + clsid_text()
}

/// What registering (`register`) or unregistering the extension writes,
/// with the DLL at `dll_path`.
pub open spec fn shell_ext_ops(register: bool, dll_path: Seq<char>) -> Seq<RegOpView> {
    if register {
        seq![
            RegOpView::Delete { path: shell_verb_key() },
            RegOpView::Write { path: class_key(), name: Seq::empty(), value: "Su! Shell Extension"@ },
            RegOpView::Write { path: class_key() + "\\InprocServer32"@, name: Seq::empty(), value: dll_path },
            RegOpView::Write { path: class_key() + "\\InprocServer32"@, name: "ThreadingModel"@, value: "Apartment"@ },
            RegOpView::Write { path: handler_key(), name: Seq::empty(), value: clsid_text() },
        ]
    } else {
        seq![RegOpView::Delete { path: handler_key() }, RegOpView::Delete { path: class_key() }]
    }
}

fn write_op(path: &Vec<char>, name: &str, value: &Vec<char>) -> (r: RegOp)
    ensures
        r@ == (RegOpView::Write { path: path@, name: name@, value: value@ }),
{
    RegOp::Write { path: string_of(path), name: String::from_str(name), value: string_of(value) }
}

fn shell_ext_ops_exec(register: bool, dll_path: &str) -> (r: Vec<RegOp>)
    ensures
        op_views(r@) == shell_ext_ops(register, dll_path@),
{
    proof { reveal_strlit(""); }
    assert(""@ =~= Seq::<char>::empty());
    let clsid = clsid_string();
    let mut ckey = chars_of("Software\\Classes\\CLSID\\");
    extend_chars(&mut ckey, &chars_of(clsid.as_str()));
    assert(ckey@ == class_key());
    let mut ops: Vec<RegOp> = Vec::new();
    if register {
        let mut inproc = crate::text::slice_chars(&ckey, 0, ckey.len());
        assert(inproc@ =~= ckey@);
        extend_chars(&mut inproc, &chars_of("\\InprocServer32"));
        ops.push(RegOp::Delete { path: String::from_str("Software\\Classes\\*\\shell\\SuShare") });
        ops.push(write_op(&ckey, "", &chars_of("Su! Shell Extension")));
        ops.push(write_op(&inproc, "", &chars_of(dll_path)));
        ops.push(write_op(&inproc, "ThreadingModel", &chars_of("Apartment")));
        ops.push(write_op(
            &chars_of("Software\\Classes\\*\\shellex\\ContextMenuHandlers\\SuShare"),
            "",
            &chars_of(clsid.as_str()),
        ));
    } else {
        ops.push(RegOp::Delete { path: String::from_str("Software\\Classes\\*\\shellex\\ContextMenuHandlers\\SuShare") });
        ops.push(RegOp::Delete { path: string_of(&ckey) });
    }
    assert(op_views(ops@) =~= shell_ext_ops(register, dll_path@));
    ops
}

/// The result of (un)registering the extension: a status and the registry
/// changes to make.
pub struct ShellExtPlan {
    pub status: i32,
    pub ops: Vec<RegOp>,
}

/// Registers (`register`) or unregisters the Explorer extension whose DLL is
/// at `dll_path`: registering with an empty path fails with `E_FAIL` and
/// changes nothing; otherwise the status is `S_OK`.
pub fn register_shell_ext(register: bool, dll_path: &str) -> (r: ShellExtPlan)
    ensures
        register && dll_path@.len() == 0 ==> r.status == E_FAIL && r.ops@.len() == 0,
        !(register && dll_path@.len() == 0) ==> r.status == S_OK && op_views(r.ops@) == shell_ext_ops(register, dll_path@),
{
    if dll_path.is_empty() && register {
        return ShellExtPlan { status: E_FAIL, ops: Vec::new() };
    }
    ShellExtPlan { status: S_OK, ops: shell_ext_ops_exec(register, dll_path) }
}

/// The classic context-menu verb for `exe_path`, then the extension's
/// unregistration.
pub open spec fn context_menu_ops(exe_path: Seq<char>) -> Seq<RegOpView> {
    seq![
        RegOpView::Write { path: shell_verb_key(), name: Seq::empty(), value: "\u{901a}\u{8fc7} Su! \u{5206}\u{4eab}"@ },
        RegOpView::Write { path: shell_verb_key(), name: "MultiSelectModel"@, value: "Player"@ },
        RegOpView::Write { path: shell_verb_key(), name: "Icon"@, value: exe_path },
        RegOpView::Write {
            path: shell_verb_key() + "\\command"@,
            name: Seq::empty(),
            value: seq!['"'] + exe_path + "\" \"%1\""@,
        },
    ] + shell_ext_ops(false, Seq::empty())
}

/// The registry changes of `register_context_menu` for the program at `exe_path`.
pub fn register_context_menu(exe_path: &str) -> (r: Vec<RegOp>)
    ensures
        op_views(r@) == context_menu_ops(exe_path@),
{
    proof { reveal_strlit(""); }
    assert(""@ =~= Seq::<char>::empty());
    let key = chars_of("Software\\Classes\\*\\shell\\SuShare");
    let mut cmd_key = crate::text::slice_chars(&key, 0, key.len());
    assert(cmd_key@ =~= key@);
    extend_chars(&mut cmd_key, &chars_of("\\command"));
    let exe = chars_of(exe_path);
    let mut cmd: Vec<char> = Vec::new();
    cmd.push('"');
    extend_chars(&mut cmd, &exe);
    extend_chars(&mut cmd, &chars_of("\" \"%1\""));
    let mut ops: Vec<RegOp> = Vec::new();
    ops.push(write_op(&key, "", &chars_of("\u{901a}\u{8fc7} Su! \u{5206}\u{4eab}")));
    ops.push(write_op(&key, "MultiSelectModel", &chars_of("Player")));
    ops.push(write_op(&key, "Icon", &exe));
    ops.push(write_op(&cmd_key, "", &cmd));
    proof { reveal_strlit(""); }
    assert(""@ =~= Seq::<char>::empty());
    let mut rest = shell_ext_ops_exec(false, "");
    ops.append(&mut rest);
    assert(op_views(ops@) =~= context_menu_ops(exe_path@));
    ops
}

/// `unregister_context_menu`: the classic verb goes, then the extension.
pub open spec fn context_menu_removal_ops() -> Seq<RegOpView> {
    seq![RegOpView::Delete { path: shell_verb_key() }] + shell_ext_ops(false, Seq::empty())
}

pub fn unregister_context_menu() -> (r: Vec<RegOp>)
    ensures
        op_views(r@) == context_menu_removal_ops(),
{
    let mut ops: Vec<RegOp> = Vec::new();
    ops.push(RegOp::Delete { path: String::from_str("Software\\Classes\\*\\shell\\SuShare") });
    proof { reveal_strlit(""); }
    assert(""@ =~= Seq::<char>::empty());
    let mut rest = shell_ext_ops_exec(false, "");
    ops.append(&mut rest);
    assert(op_views(ops@) =~= context_menu_removal_ops());
    ops
}

/// `E_INVALIDARG`.
pub const E_INVALIDARG: i32 = -2147024809i32;

/// `E_NOINTERFACE`.
pub const E_NOINTERFACE: i32 = -2147467262i32;

/// `CLASS_E_CLASSNOTAVAILABLE`.
pub const CLASS_E_CLASSNOTAVAILABLE: i32 = -2147221164i32;

/// A COM class or interface id.
#[derive(Clone, Copy, Debug)]
pub struct Guid {
    pub data1: u32,
    pub data2: u16,
    pub data3: u16,
    pub data4: [u8; 8],
}

/// The extension's own class id.
pub open spec fn is_extension_class(g: Guid) -> bool {
    g.data1 == CLSID_DATA1 && g.data2 == CLSID_DATA2 && g.data3 == CLSID_DATA3 && g.data4@ == clsid_data4()
}

/// `IUnknown` as the extension recognises it: zero leading fields, then
/// `C0 00`.
pub open spec fn is_iunknown(g: Guid) -> bool {
    g.data1 == 0 && g.data2 == 0 && g.data3 == 0 && g.data4@[0] == 0xC0u8 && g.data4@[1] == 0u8
}

/// `IClassFactory`: `{00000001-0000-0000-C000-000000000046}`, which a COM
/// server's class object hands out.
pub open spec fn is_iclassfactory(g: Guid) -> bool {
    g.data1 == 1 && g.data2 == 0 && g.data3 == 0 && g.data4@ == seq![0xC0u8, 0u8, 0u8, 0u8, 0u8, 0u8, 0u8, 0x46u8]
}

/// `IExplorerCommand` as the extension recognises it, by its leading fields.
pub open spec fn is_explorer_command(g: Guid) -> bool {
    g.data1 == 0xa08ce4d0u32 && g.data2 == 0xfa25u16 && g.data3 == 0x44abu16
}

/// The extension's two COM objects.
#[derive(Clone, Copy, Debug, PartialEq, Eq)]
pub enum ComObject {
    /// The class object that `DllGetClassObject` hands out.
    ClassFactory,
    /// An Explorer command made by the class object.
    ExplorerCommand,
}

/// What `QueryInterface` on `obj` answers: an invalid argument without an
/// out pointer, no interface without an id, success for `IUnknown` and
/// `IExplorerCommand` (the interface both objects answer to), and, on the
/// class object only, for `IClassFactory`.
pub open spec fn query_status(obj: ComObject, has_out: bool, riid: Option<Guid>) -> i32 {
    if !has_out {
        E_INVALIDARG
    } else {
        match riid {
            None => E_NOINTERFACE,
            Some(g) => if is_iunknown(g) || is_explorer_command(g) || (obj == ComObject::ClassFactory
                && is_iclassfactory(g)) {
                S_OK
            } else {
                E_NOINTERFACE
            },
        }
    }
}

/// The status of `QueryInterface` on `obj` for interface `riid` (`None`: a
/// null id), `has_out` telling whether an out pointer was given.
pub fn query_interface_status(obj: ComObject, has_out: bool, riid: Option<Guid>) -> (r: i32)
    ensures
        r == query_status(obj, has_out, riid),
{
    if !has_out {
        return E_INVALIDARG;
    }
    match riid {
        None => E_NOINTERFACE,
        Some(g) => {
            let is_unknown = g.data1 == 0 && g.data2 == 0 && g.data3 == 0 && g.data4[0] == 0xC0u8 && g.data4[1] == 0u8;
            let d = g.data4;
            let factory_id = g.data1 == 1 && g.data2 == 0 && g.data3 == 0 && d[0] == 0xC0u8 && d[1] == 0u8
                && d[2] == 0u8 && d[3] == 0u8 && d[4] == 0u8 && d[5] == 0u8 && d[6] == 0u8 && d[7] == 0x46u8;
            proof {
                let want = seq![0xC0u8, 0u8, 0u8, 0u8, 0u8, 0u8, 0u8, 0x46u8];
                if factory_id {
                    assert(d@ =~= want);
                } else if d@ == want {
                    assert(d@[0] == want[0] && d@[1] == want[1] && d@[2] == want[2] && d@[3] == want[3]);
                    assert(d@[4] == want[4] && d@[5] == want[5] && d@[6] == want[6] && d@[7] == want[7]);
                }
            }
            let is_command = g.data1 == 0xa08ce4d0u32 && g.data2 == 0xfa25u16 && g.data3 == 0x44abu16;
            let is_factory = factory_id && matches!(obj, ComObject::ClassFactory);
            if is_unknown || is_command || is_factory {
                S_OK
            } else {
                E_NOINTERFACE
            }
        },
    }
}

/// Whether `g` is the extension's class id.
pub fn extension_class(g: &Guid) -> (r: bool)
    ensures
        r == is_extension_class(*g),
{
    let d = g.data4;
    let r = g.data1 == CLSID_DATA1 && g.data2 == CLSID_DATA2 && g.data3 == CLSID_DATA3 && d[0] == 0x9Fu8
        && d[1] == 0x0Au8 && d[2] == 0x1Bu8 && d[3] == 0x2Cu8 && d[4] == 0x3Du8 && d[5] == 0x4Eu8 && d[6] == 0x5Fu8
        && d[7] == 0x6Au8;
    proof {
        if r {
            assert(d@ =~= clsid_data4());
        } else if d@ == clsid_data4() {
            assert(d@[0] == 0x9Fu8 && d@[7] == 0x6Au8);
        }
    }
    r
}

/// What `DllGetClassObject` answers for class `rclsid` and interface `riid`
/// (`None`: a null pointer), `has_out` telling whether an out pointer was
/// given.
pub open spec fn class_object_status(rclsid: Option<Guid>, riid: Option<Guid>, has_out: bool) -> i32 {
    match rclsid {
        None => E_INVALIDARG,
        Some(c) => if !has_out {
            E_INVALIDARG
        } else if !is_extension_class(c) {
            CLASS_E_CLASSNOTAVAILABLE
        } else {
            query_status(ComObject::ClassFactory, true, riid)
        },
    }
}

pub fn get_class_object_status(rclsid: Option<Guid>, riid: Option<Guid>, has_out: bool) -> (r: i32)
    ensures
        r == class_object_status(rclsid, riid, has_out),
{
    match rclsid {
        None => E_INVALIDARG,
        Some(c) => {
            if !has_out {
                E_INVALIDARG
            } else if !extension_class(&c) {
                CLASS_E_CLASSNOTAVAILABLE
            } else {
                query_interface_status(ComObject::ClassFactory, true, riid)
            }
        },
    }
}

/// What the Explorer command hands the program when invoked on the
/// selected paths: nothing when none is selected (the program starts
/// alone), else the text of a list file, the paths one per line.
pub fn invoke_list(paths: &Vec<String>) -> (r: Option<String>)
    ensures
        r is None <==> paths.len() == 0,
        r matches Some(t) ==> t@ == joined_lines(paths@.map_values(|s: String| s@)),
{
    if paths.len() == 0 {
        None
    } else {
        Some(join_lines(paths))
    }
}

/// The name of the list file written for process `pid`.
pub open spec fn list_file_name(pid: u32) -> Seq<char> {
    "su_cli_"@ + decimal(pid as nat) + ".txt"@
}

pub fn list_file_name_of(pid: u32) -> (r: String)
    ensures
        r@ == list_file_name(pid),
{
    let mut out = chars_of("su_cli_");
    extend_chars(&mut out, &decimal_exec(pid as u64));
    extend_chars(&mut out, &chars_of(".txt"));
    string_of(&out)
}

/// A model of the keys of `HKEY_CURRENT_USER`: each existing key, by its
/// path with ASCII letters folded to lower case (key names compare without
/// case), with its values by name.
pub type RegistryModel = Map<Seq<char>, Map<Seq<char>, Seq<char>>>;

/// A key path as the model holds it: ASCII letters in lower case.
pub open spec fn folded(path: Seq<char>) -> Seq<char> {
    ascii_lower_seq(path)
}

/// Key `k` is `path` or lies beneath it, compared without ASCII case.
pub open spec fn under(k: Seq<char>, path: Seq<char>) -> bool {
    folded(k) == folded(path) || has_prefix(folded(k), folded(path) + seq!['\\'])
}

/// The registry without key `path` and everything beneath it (what
/// `RegDeleteTreeW` leaves; nothing changes when the key is absent).
pub open spec fn delete_tree(reg: RegistryModel, path: Seq<char>) -> RegistryModel {
    Map::new(|k: Seq<char>| reg.contains_key(k) && !under(k, path), |k: Seq<char>| reg[k])
}

/// The registry after one operation. A write sets one value of a key,
/// creating the key when it is absent; this models a key whose parent key
/// exists (`RegCreateKeyExW` would create missing parents too).
pub open spec fn apply_op(reg: RegistryModel, op: RegOpView) -> RegistryModel {
    match op {
        RegOpView::Write { path, name, value } => {
            let k = folded(path);
            let vals = if reg.contains_key(k) { reg[k] } else { Map::empty() };
            reg.insert(k, vals.insert(name, value))
        },
        RegOpView::Delete { path } => delete_tree(reg, path),
    }
}

proof fn lemma_fold_twice(s: Seq<char>)
    ensures
        folded(folded(s)) == folded(s),
{
    assert forall|i: int| 0 <= i < s.len() implies ascii_lower(ascii_lower(s[i])) == ascii_lower(s[i]) by {
        let c = s[i];
        if 'A' <= c && c <= 'Z' {
            assert(((c as u32) + 32) as char as u32 == (c as u32) + 32);
        }
    }
    assert(folded(folded(s)) =~= folded(s));
}

proof fn lemma_fold_concat(a: Seq<char>, b: Seq<char>)
    ensures
        folded(a + b) == folded(a) + folded(b),
{
    assert(folded(a + b) =~= folded(a) + folded(b));
}

/// The registry after the operations, in order.
pub open spec fn apply_ops(reg: RegistryModel, ops: Seq<RegOpView>) -> RegistryModel
    decreases ops.len(),
{
    if ops.len() == 0 {
        reg
    } else {
        apply_op(apply_ops(reg, ops.drop_last()), ops.last())
    }
}

proof fn lemma_apply_push(reg: RegistryModel, ops: Seq<RegOpView>, op: RegOpView)
    ensures
        apply_ops(reg, ops.push(op)) == apply_op(apply_ops(reg, ops), op),
{
    assert(ops.push(op).drop_last() =~= ops);
}

proof fn lemma_char_under(k: Seq<char>, q: Seq<char>, i: int)
    requires
        under(k, q),
        0 <= i < q.len(),
    ensures
        folded(k)[i] == ascii_lower(q[i]),
{
    let (fk, fq) = (folded(k), folded(q));
    if fk != fq {
        assert(fk.subrange(0, fq.len() as int + 1)[i] == fk[i]);
        assert((fq + seq!['\\'])[i] == fq[i]);
    }
}

/// Unregistering the extension deletes its handler key, then its class key.
proof fn lemma_unregister_steps(reg: RegistryModel)
    ensures
        apply_ops(reg, shell_ext_ops(false, Seq::empty())) == delete_tree(delete_tree(reg, handler_key()), class_key()),
{
    let ops = shell_ext_ops(false, Seq::empty());
    let a = RegOpView::Delete { path: handler_key() };
    let b = RegOpView::Delete { path: class_key() };
    assert(ops =~= Seq::<RegOpView>::empty().push(a).push(b));
    lemma_apply_push(reg, Seq::<RegOpView>::empty(), a);
    lemma_apply_push(reg, Seq::<RegOpView>::empty().push(a), b);
}

/// Registering the extension and then unregistering it leaves the registry
/// as it was, except that the classic `*\shell\SuShare` verb is gone. This is
/// for a registry that holds neither the extension's class key nor its
/// handler key (nor anything beneath them), and that has both keys' parents.
pub proof fn law_register_then_unregister(reg: RegistryModel, dll_path: Seq<char>)
    requires
        forall|k: Seq<char>| #[trigger] reg.contains_key(k) ==> !under(k, class_key()) && !under(k, handler_key()),
        reg.contains_key(folded("Software\\Classes\\CLSID"@)),
        reg.contains_key(folded("Software\\Classes\\*\\shellex\\ContextMenuHandlers"@)),
    ensures
        apply_ops(apply_ops(reg, shell_ext_ops(true, dll_path)), shell_ext_ops(false, Seq::empty()))
            == delete_tree(reg, shell_verb_key()),
{
    let c = class_key();
    let h = handler_key();
    let inproc = c + "\\InprocServer32"@;
    let ops = shell_ext_ops(true, dll_path);
    let o0 = RegOpView::Delete { path: shell_verb_key() };
    let o1 = RegOpView::Write { path: c, name: Seq::empty(), value: "Su! Shell Extension"@ };
    let o2 = RegOpView::Write { path: inproc, name: Seq::empty(), value: dll_path };
    let o3 = RegOpView::Write { path: inproc, name: "ThreadingModel"@, value: "Apartment"@ };
    let o4 = RegOpView::Write { path: h, name: Seq::empty(), value: clsid_text() };
    let e = Seq::<RegOpView>::empty();
    assert(ops =~= e.push(o0).push(o1).push(o2).push(o3).push(o4));
    lemma_apply_push(reg, e, o0);
    lemma_apply_push(reg, e.push(o0), o1);
    lemma_apply_push(reg, e.push(o0).push(o1), o2);
    lemma_apply_push(reg, e.push(o0).push(o1).push(o2), o3);
    lemma_apply_push(reg, e.push(o0).push(o1).push(o2).push(o3), o4);
    let r1 = delete_tree(reg, shell_verb_key());
    let r5 = apply_ops(reg, ops);
    assert(e.push(o0).drop_last() =~= e);
    assert(apply_ops(reg, e.push(o0)) == r1);
    lemma_unregister_steps(r5);
    reveal_strlit("\\InprocServer32");
    let (fc, fi, fh) = (folded(c), folded(inproc), folded(h));
    lemma_fold_twice(c);
    lemma_fold_twice(inproc);
    lemma_fold_twice(h);
    lemma_fold_concat(c, "\\InprocServer32"@);
    assert(under(fc, c));
    assert(under(fh, h));
    assert(under(fi, c)) by {
        assert(folded("\\InprocServer32"@)[0] == '\\');
        assert(fi.subrange(0, fc.len() as int + 1) =~= fc + seq!['\\']);
    }
    let fin = delete_tree(delete_tree(r5, h), c);
    assert forall|k: Seq<char>| #[trigger] fin.contains_key(k) == r1.contains_key(k) by {
        if r1.contains_key(k) {
            assert(reg.contains_key(k));
        }
    }
    assert forall|k: Seq<char>| #[trigger] fin.contains_key(k) implies fin[k] == r1[k] by {
        assert(reg.contains_key(k));
        assert(k != fc && k != fh && k != fi);
    }
    assert(fin =~= r1);
}

/// The class id text is `{D4E8F1A2-3B5C-4D6E-9F0A-1B2C3D4E5F6A}`.
pub proof fn lemma_clsid_text_value()
    ensures
        clsid_text() == seq!['{', 'D', '4', 'E', '8', 'F', '1', 'A', '2', '-', '3', 'B', '5', 'C', '-', '4', 'D', '6',
            'E', '-', '9', 'F', '0', 'A', '-', '1', 'B', '2', 'C', '3', 'D', '4', 'E', '5', 'F', '6', 'A', '}'],
{
    reveal_with_fuel(hex_upper, 9);
    assert(digit_char(0) == '0' && digit_char(1) == '1' && digit_char(2) == '2' && digit_char(3) == '3');
    assert(digit_char(4) == '4' && digit_char(5) == '5' && digit_char(6) == '6' && digit_char(8) == '8');
    assert(digit_char(9) == '9' && digit_char(10) == 'A' && digit_char(11) == 'B' && digit_char(12) == 'C');
    assert(digit_char(13) == 'D' && digit_char(14) == 'E' && digit_char(15) == 'F');
    assert(hex_upper(0xD4E8F1A2) =~= seq!['D', '4', 'E', '8', 'F', '1', 'A', '2']);
    assert(hex_upper(0x3B5C) =~= seq!['3', 'B', '5', 'C']);
    assert(hex_upper(0x4D6E) =~= seq!['4', 'D', '6', 'E']);
    assert(hex_upper(0x9F) =~= seq!['9', 'F']);
    assert(hex_upper(0x0A) =~= seq!['A']);
    assert(zero_pad(seq!['A'], 2) =~= seq!['0', 'A']);
    assert(hex_upper(0x1B) =~= seq!['1', 'B']);
    assert(hex_upper(0x2C) =~= seq!['2', 'C']);
    assert(hex_upper(0x3D) =~= seq!['3', 'D']);
    assert(hex_upper(0x4E) =~= seq!['4', 'E']);
    assert(hex_upper(0x5F) =~= seq!['5', 'F']);
    assert(hex_upper(0x6A) =~= seq!['6', 'A']);
    assert(clsid_text() =~= seq!['{', 'D', '4', 'E', '8', 'F', '1', 'A', '2', '-', '3', 'B', '5', 'C', '-', '4', 'D',
        '6', 'E', '-', '9', 'F', '0', 'A', '-', '1', 'B', '2', 'C', '3', 'D', '4', 'E', '5', 'F', '6', 'A', '}']);
}

/// After registering, the context-menu handler key names the extension's
/// class: its default value is the class id text
/// `{D4E8F1A2-3B5C-4D6E-9F0A-1B2C3D4E5F6A}`, and the key
/// `Software\Classes\CLSID\<that id>\InprocServer32` has the DLL's path as
/// its default value and `Apartment` as its threading model. So Explorer,
/// following the handler to the class, loads the registered DLL.
pub proof fn law_registered_handler_names_class(reg: RegistryModel, dll_path: Seq<char>)
    ensures
        ({
            let r = apply_ops(reg, shell_ext_ops(true, dll_path));
            let fh = folded(handler_key());
            let id = r[fh][Seq::empty()];
            let server = folded("Software\\Classes\\CLSID\\"@ + id + "\\InprocServer32"@);
            &&& r.contains_key(fh) && r[fh].contains_key(Seq::empty())
            &&& id == clsid_text()
            &&& id == seq!['{', 'D', '4', 'E', '8', 'F', '1', 'A', '2', '-', '3', 'B', '5', 'C', '-', '4', 'D', '6', 'E',
                '-', '9', 'F', '0', 'A', '-', '1', 'B', '2', 'C', '3', 'D', '4', 'E', '5', 'F', '6', 'A', '}']
            &&& r.contains_key(server)
            &&& r[server].contains_key(Seq::empty()) && r[server][Seq::empty()] == dll_path
            &&& r[server].contains_key("ThreadingModel"@) && r[server]["ThreadingModel"@] == "Apartment"@
        }),
{
    let c = class_key();
    let h = handler_key();
    let inproc = c + "\\InprocServer32"@;
    let ops = shell_ext_ops(true, dll_path);
    let o0 = RegOpView::Delete { path: shell_verb_key() };
    let o1 = RegOpView::Write { path: c, name: Seq::empty(), value: "Su! Shell Extension"@ };
    let o2 = RegOpView::Write { path: inproc, name: Seq::empty(), value: dll_path };
    let o3 = RegOpView::Write { path: inproc, name: "ThreadingModel"@, value: "Apartment"@ };
    let o4 = RegOpView::Write { path: h, name: Seq::empty(), value: clsid_text() };
    let e = Seq::<RegOpView>::empty();
    assert(ops =~= e.push(o0).push(o1).push(o2).push(o3).push(o4));
    lemma_apply_push(reg, e, o0);
    lemma_apply_push(reg, e.push(o0), o1);
    lemma_apply_push(reg, e.push(o0).push(o1), o2);
    lemma_apply_push(reg, e.push(o0).push(o1).push(o2), o3);
    lemma_apply_push(reg, e.push(o0).push(o1).push(o2).push(o3), o4);
    reveal_strlit("ThreadingModel");
    reveal_strlit("Software\\Classes\\CLSID\\");
    reveal_strlit("Software\\Classes\\*\\shellex\\ContextMenuHandlers\\SuShare");
    let fh = folded(h);
    let fi = folded(inproc);
    assert("ThreadingModel"@ != Seq::<char>::empty()) by {
        assert("ThreadingModel"@.len() > 0);
    }
    assert(fh != fi) by {
        assert(fh[17] == ascii_lower(h[17]));
        assert(fi[17] == ascii_lower(inproc[17]));
        assert(inproc[17] == c[17]);
        assert(c[17] == 'C');
        assert(h[17] == '*');
        assert((('C' as u32) + 32) as char as u32 == 99);
    }
    assert("Software\\Classes\\CLSID\\"@ + clsid_text() + "\\InprocServer32"@ =~= inproc);
    lemma_clsid_text_value();
}

/// Unregistering the extension alone never touches the classic
/// `*\shell\SuShare` verb: every key at or beneath it stays as it was.
pub proof fn law_unregister_keeps_classic_verb(reg: RegistryModel, k: Seq<char>)
    requires
        under(k, shell_verb_key()),
    ensures
        apply_ops(reg, shell_ext_ops(false, Seq::empty())).contains_key(k) == reg.contains_key(k),
        reg.contains_key(k) ==> apply_ops(reg, shell_ext_ops(false, Seq::empty()))[k] == reg[k],
{
    lemma_unregister_steps(reg);
    let v = shell_verb_key();
    reveal_strlit("Software\\Classes\\*\\shell\\SuShare");
    reveal_strlit("Software\\Classes\\*\\shellex\\ContextMenuHandlers\\SuShare");
    reveal_strlit("Software\\Classes\\CLSID\\");
    lemma_char_under(k, v, 24);
    lemma_char_under(k, v, 17);
    assert(!under(k, handler_key())) by {
        if under(k, handler_key()) {
            lemma_char_under(k, handler_key(), 24);
        }
    }
    assert(!under(k, class_key())) by {
        if under(k, class_key()) {
            assert(class_key()[17] == 'C');
            assert((('C' as u32) + 32) as char as u32 == 99);
            lemma_char_under(k, class_key(), 17);
        }
    }
}

/// `s` with each `'` doubled, as a PowerShell single-quoted string needs.
pub open spec fn ps_quoted(s: Seq<char>) -> Seq<char> {
    replace_all(s, seq!['\''], seq!['\'', '\''])
}

/// The PowerShell command that creates the desktop shortcut.
pub open spec fn shortcut_script_text(lnk: Seq<char>, exe: Seq<char>, work_dir: Seq<char>) -> Seq<char> {
    "$ws = New-Object -ComObject WScript.Shell; $s = $ws.CreateShortcut('"@ + ps_quoted(lnk)
        + "'); $s.TargetPath = '"@ + ps_quoted(exe) + "'; $s.WorkingDirectory = '"@ + ps_quoted(work_dir)
        + "'; $s.Save()"@
}

pub fn shortcut_script(lnk: &str, exe: &str, work_dir: &str) -> (r: String)
    ensures
        r@ == shortcut_script_text(lnk@, exe@, work_dir@),
{
    let q = vec!['\''];
    let qq = vec!['\'', '\''];
    assert(q@ =~= seq!['\'']);
    assert(qq@ =~= seq!['\'', '\'']);
    let mut out = chars_of("$ws = New-Object -ComObject WScript.Shell; $s = $ws.CreateShortcut('");
    extend_chars(&mut out, &replace_all_exec(&chars_of(lnk), &q, &qq));
    extend_chars(&mut out, &chars_of("'); $s.TargetPath = '"));
    extend_chars(&mut out, &replace_all_exec(&chars_of(exe), &q, &qq));
    extend_chars(&mut out, &chars_of("'; $s.WorkingDirectory = '"));
    extend_chars(&mut out, &replace_all_exec(&chars_of(work_dir), &q, &qq));
    extend_chars(&mut out, &chars_of("'; $s.Save()"));
    string_of(&out)
}

}
