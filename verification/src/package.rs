//! The build command: what a request asks the device to build, and the
//! document and the frame that carry it.

use crate::encoding::{
    fresh_id, hyphenated, id_text, is_random_id, json_quote, json_quoted,
    osc_encode_text_message, osc_text_message,
};
use crate::text::{join, joined, text_eq};
use vstd::prelude::*;

verus! {

/// The deadline of one build exchange, in milliseconds from the arrival of the
/// request.
pub const PACKAGE_TIMEOUT_MS: u64 = 2000;

/// The options of a build. An option that is absent is left out of the
/// command; the device then applies its own default.
#[derive(Clone, Debug, PartialEq, Eq)]
pub struct PackageCreateConfig {
    pub rnbo_version: Option<String>,
    pub include_presets: Option<bool>,
    pub include_views: Option<bool>,
    pub include_datafiles: Option<bool>,
    pub include_binaries: Option<bool>,
}

/// What a build is to contain.
#[derive(Clone, Debug, PartialEq, Eq)]
pub enum BuildTarget {
    /// Everything on the device.
    All,
    /// One graph, by name.
    Graph(String),
    /// One patcher, by name.
    Patcher(String),
}

/// A build command: a correlation id, the target and the options.
#[derive(Clone, Debug, PartialEq, Eq)]
pub struct PackageCmd {
    pub id: u128,
    pub target: BuildTarget,
    pub config: PackageCreateConfig,
}

/// The options of a build, as values.
pub struct ConfigView {
    pub rnbo_version: Option<Seq<char>>,
    pub include_presets: Option<bool>,
    pub include_views: Option<bool>,
    pub include_datafiles: Option<bool>,
    pub include_binaries: Option<bool>,
}

/// The target of a build, as a value.
pub enum TargetView {
    All,
    Graph(Seq<char>),
    Patcher(Seq<char>),
}

/// A build command, as a value.
pub struct CmdView {
    pub id: u128,
    pub target: TargetView,
    pub config: ConfigView,
}

impl View for PackageCreateConfig {
    type V = ConfigView;

    open spec fn view(&self) -> ConfigView {
        ConfigView {
            rnbo_version: self.rnbo_version.deep_view(),
            include_presets: self.include_presets,
            include_views: self.include_views,
            include_datafiles: self.include_datafiles,
            include_binaries: self.include_binaries,
        }
    }
}

impl View for BuildTarget {
    type V = TargetView;

    open spec fn view(&self) -> TargetView {
        match self {
            BuildTarget::All => TargetView::All,
            BuildTarget::Graph(name) => TargetView::Graph(name@),
            BuildTarget::Patcher(name) => TargetView::Patcher(name@),
        }
    }
}

impl View for PackageCmd {
    type V = CmdView;

    open spec fn view(&self) -> CmdView {
        CmdView { id: self.id, target: self.target@, config: self.config@ }
    }
}

/// The member of the command's parameters that names the target.
pub open spec fn target_member(target: TargetView) -> Seq<char> {
    match target {
        TargetView::All => "\"all\":true"@,
        TargetView::Graph(name) => "\"set\":"@ + json_quoted(name),
        TargetView::Patcher(name) => "\"patcher\":"@ + json_quoted(name),
    }
}

/// The member for an option that holds a text: none if the option is absent.
pub open spec fn text_member(key: Seq<char>, value: Option<Seq<char>>) -> Seq<Seq<char>> {
    match value {
        Some(text) => seq![key + json_quoted(text)],
        None => seq![],
    }
}

/// The member for an option that holds a flag: none if the option is absent.
pub open spec fn flag_member(key: Seq<char>, value: Option<bool>) -> Seq<Seq<char>> {
    match value {
        Some(flag) => seq![key + if flag { "true"@ } else { "false"@ }],
        None => seq![],
    }
}

/// The members of the command's parameters, in the order in which they are
/// written: the target, then each option that is present.
pub open spec fn params_members(target: TargetView, config: ConfigView) -> Seq<Seq<char>> {
    seq![target_member(target)] + text_member("\"rnbo_version\":"@, config.rnbo_version)
        + flag_member("\"include_presets\":"@, config.include_presets) + flag_member(
        "\"include_views\":"@,
        config.include_views,
    ) + flag_member("\"include_datafiles\":"@, config.include_datafiles) + flag_member(
        "\"include_binaries\":"@,
        config.include_binaries,
    )
}

/// The command as a compact JSON document.
pub open spec fn command_document(cmd: CmdView) -> Seq<char> {
    "{\"method\":\"package_create\",\"id\":"@ + json_quoted(hyphenated(cmd.id))
        + ",\"params\":{"@ + joined(params_members(cmd.target, cmd.config), ","@) + "}}"@
}

/// The frame that carries a command to the device: an OSC message to the
/// command address whose one argument is the document.
pub open spec fn command_frame(cmd: CmdView) -> Seq<u8> {
    osc_text_message(command_address(), command_document(cmd))
}

/// The address of a frame that carries a command.
pub open spec fn command_address() -> Seq<char> {
    "/rnbo/cmd"@
}

fn push_member(members: &mut Vec<String>, member: String)
    ensures
        final(members).deep_view() == old(members).deep_view().push(member@),
{
    members.push(member);
    assert(members.deep_view() =~= old(members).deep_view().push(member@));
}

fn push_text_member(members: &mut Vec<String>, key: &str, value: &Option<String>)
    ensures
        final(members).deep_view() == old(members).deep_view() + text_member(
            key@,
            value.deep_view(),
        ),
{
    match value {
        Some(text) => {
            let member = String::from_str(key).concat(json_quote(text.as_str()).as_str());
            push_member(members, member);
            assert(members.deep_view() =~= old(members).deep_view() + text_member(
                key@,
                value.deep_view(),
            ));
        },
        None => {
            assert(members.deep_view() =~= old(members).deep_view() + text_member(
                key@,
                value.deep_view(),
            ));
        },
    }
}

fn push_flag_member(members: &mut Vec<String>, key: &str, value: &Option<bool>)
    ensures
        final(members).deep_view() == old(members).deep_view() + flag_member(key@, *value),
{
    match value {
        Some(flag) => {
            let member = String::from_str(key).concat(if *flag { "true" } else { "false" });
            push_member(members, member);
            assert(members.deep_view() =~= old(members).deep_view() + flag_member(key@, *value));
        },
        None => {
            assert(members.deep_view() =~= old(members).deep_view() + flag_member(key@, *value));
        },
    }
}

/// The target that a request for `packagetype` and `name` asks for, if the
/// two fit together: `all` without a name, `graphs` or `patchers` with one.
pub open spec fn requested_target(packagetype: Seq<char>, name: Option<Seq<char>>) -> Option<
    TargetView,
> {
    if packagetype == "all"@ && name is None {
        Some(TargetView::All)
    } else if packagetype == "graphs"@ && name is Some {
        Some(TargetView::Graph(name->0))
    } else if packagetype == "patchers"@ && name is Some {
        Some(TargetView::Patcher(name->0))
    } else {
        None
    }
}

impl PackageCmd {
    /// The command for a request, under a fresh correlation id, or `None` if
    /// `packagetype` and `name` do not fit together.
    pub fn for_request(packagetype: &str, name: Option<&str>, config: PackageCreateConfig) -> (cmd:
        Option<Self>)
        ensures
            match requested_target(packagetype@, name.deep_view()) {
                Some(target) => cmd is Some && cmd->0@.target == target && cmd->0@.config
                    == config@ && is_random_id(cmd->0.id),
                None => cmd is None,
            },
    {
        match name {
            None => {
                if text_eq(packagetype, "all") {
                    Some(PackageCmd::all(config))
                } else {
                    None
                }
            },
            Some(name) => {
                if text_eq(packagetype, "graphs") {
                    Some(PackageCmd::graph(name, config))
                } else if text_eq(packagetype, "patchers") {
                    Some(PackageCmd::patcher(name, config))
                } else {
                    None
                }
            },
        }
    }

    /// A command to build everything, under a fresh correlation id.
    pub fn all(config: PackageCreateConfig) -> (cmd: Self)
        ensures
            cmd@.target == TargetView::All,
            cmd@.config == config@,
            is_random_id(cmd.id),
    {
        PackageCmd { id: fresh_id(), target: BuildTarget::All, config }
    }

    /// A command to build one graph, under a fresh correlation id.
    pub fn graph(name: &str, config: PackageCreateConfig) -> (cmd: Self)
        ensures
            cmd@.target == TargetView::Graph(name@),
            cmd@.config == config@,
            is_random_id(cmd.id),
    {
        PackageCmd { id: fresh_id(), target: BuildTarget::Graph(String::from_str(name)), config }
    }

    /// A command to build one patcher, under a fresh correlation id.
    pub fn patcher(name: &str, config: PackageCreateConfig) -> (cmd: Self)
        ensures
            cmd@.target == TargetView::Patcher(name@),
            cmd@.config == config@,
            is_random_id(cmd.id),
    {
        PackageCmd { id: fresh_id(), target: BuildTarget::Patcher(String::from_str(name)), config }
    }

    /// The members of the parameters, each as JSON text.
    fn members(&self) -> (members: Vec<String>)
        ensures
            members.deep_view() == params_members(self@.target, self@.config),
    {
        let mut members: Vec<String> = Vec::new();
        assert(members.deep_view() =~= Seq::<Seq<char>>::empty());
        let target = match &self.target {
            BuildTarget::All => String::from_str("\"all\":true"),
            BuildTarget::Graph(name) => String::from_str("\"set\":").concat(
                json_quote(name.as_str()).as_str(),
            ),
            BuildTarget::Patcher(name) => String::from_str("\"patcher\":").concat(
                json_quote(name.as_str()).as_str(),
            ),
        };
        push_member(&mut members, target);
        assert(members.deep_view() =~= seq![target_member(self@.target)]);
        push_text_member(&mut members, "\"rnbo_version\":", &self.config.rnbo_version);
        push_flag_member(&mut members, "\"include_presets\":", &self.config.include_presets);
        push_flag_member(&mut members, "\"include_views\":", &self.config.include_views);
        push_flag_member(&mut members, "\"include_datafiles\":", &self.config.include_datafiles);
        push_flag_member(&mut members, "\"include_binaries\":", &self.config.include_binaries);
        members
    }

    /// The command as a compact JSON document: the method, the id, and the
    /// parameters with the target and every option that is present.
    pub fn document(&self) -> (text: String)
        ensures
            text@ == command_document(self@),
    {
        let members = self.members();
        let mut text = String::from_str("{\"method\":\"package_create\",\"id\":");
        text.append(json_quote(id_text(self.id).as_str()).as_str());
        text.append(",\"params\":{");
        text.append(join(&members, ",").as_str());
        text.append("}}");
        text
    }

    /// The frame that carries the command to the device.
    pub fn frame(&self) -> (bytes: Vec<u8>)
        ensures
            bytes@ == command_frame(self@),
    {
        let document = self.document();
        osc_encode_text_message("/rnbo/cmd", document.as_str())
    }
}

/// The options of a build as a request gives them.
pub fn options(
    rnbo_version: Option<&str>,
    include_presets: Option<bool>,
    include_views: Option<bool>,
    include_binaries: Option<bool>,
    include_datafiles: Option<bool>,
) -> (config: PackageCreateConfig)
    ensures
        config@ == (ConfigView {
            rnbo_version: rnbo_version.deep_view(),
            include_presets,
            include_views,
            include_datafiles,
            include_binaries,
        }),
{
    PackageCreateConfig {
        rnbo_version: match rnbo_version {
            Some(version) => Some(String::from_str(version)),
            None => None,
        },
        include_presets,
        include_views,
        include_datafiles,
        include_binaries,
    }
}

} // verus!
