//! Behavior of the configuration, its agent section, its documents, and imported themes.

use nobox::config::openbox_color::parse_openbox_color;
use nobox::config::openbox_theme::MAX_SOURCE_BYTES;
use nobox::config::tree::Surroundings;
use nobox::config::{binding_actions, BindingActionsError};
use nobox::{
    mouse_context_chain, Action, ActionQuery, ActionQueryContext, ActionQueryTarget,
    ActionQueryWorkspace, ActionQueryWorkspaceRelation, AgentConfig, AgentGrant, AgentPolicy,
    AgentVisibility, ApplicationIdentity, ApplicationKind, ApplicationLayer, ApplicationMatcher,
    ApplicationMaximized, ApplicationPosition, ApplicationRule, ApplicationSettings,
    ApplicationSize, ApplicationWorkspace, AxisPosition, Capability, CapabilitySet, Config,
    ConfigError, EdgeDirection, GrantedCapability, KeyBinding, KeyChord, KeySequence,
    KeyboardModifier, LaunchPolicy, LayerTarget, MarginConfig, MaximizeDirection, MenuDefinition,
    MenuEntry, MenuSource, MouseBinding, MouseBindingSelector, MouseButton, MouseChord,
    MouseContext, MouseModifier, MouseTrigger, OpenboxThemeImport, OpenboxThemeImportError,
    OutputConfig, OutputModeConfig, OutputPosition, OutputScale, OutputTarget, OutputTransform,
    PanelItem, PanelPosition, PanelTaskScope, Positive, PositiveRelativeAmount, RelativeAmount,
    ResizeEdge, RgbColor, ScreenshotTarget, SettingKey, SettingValue, SettingsDocument,
    SettingsError, SizeBasis, StartupNotification, TitleAlignment, WindowDirection,
    WorkspacePlacement, MAX_COMMAND_MENU_BYTES, MAX_LAUNCH_ENTRIES, MAX_SETTINGS_SOURCE_BYTES,
    MAX_WORKSPACES,
};
use std::str::FromStr;
use toml::{Table, Value};

fn refuse<T>(message: &str) -> Result<T, ConfigError> {
    Err(ConfigError::Toml(message.to_owned()))
}

/// The fields of a table that have not been read.
struct Fields(Table);

impl Fields {
    fn of(value: Value) -> Result<Self, ConfigError> {
        match value {
            Value::Table(table) => Ok(Fields(table)),
            _ => refuse("expected a table"),
        }
    }

    fn read<T>(
        &mut self,
        key: &str,
        target: &mut T,
        decode: impl Fn(Value) -> Result<T, ConfigError>,
    ) -> Result<(), ConfigError> {
        if let Some(value) = self.0.remove(key) {
            *target = decode(value)?;
        }
        Ok(())
    }

    fn option<T>(
        &mut self,
        key: &str,
        decode: impl Fn(Value) -> Result<T, ConfigError>,
    ) -> Result<Option<T>, ConfigError> {
        self.0.remove(key).map(decode).transpose()
    }

    fn need<T>(
        &mut self,
        key: &str,
        decode: impl Fn(Value) -> Result<T, ConfigError>,
    ) -> Result<T, ConfigError> {
        match self.0.remove(key) {
            Some(value) => decode(value),
            None => refuse(&format!("missing field {key}")),
        }
    }

    fn finish(self) -> Result<(), ConfigError> {
        match self.0.keys().next() {
            Some(key) => refuse(&format!("unknown field {key}")),
            None => Ok(()),
        }
    }
}

fn boolean(value: Value) -> Result<bool, ConfigError> {
    value.as_bool().map_or_else(|| refuse("expected a boolean"), Ok)
}

fn number(value: Value) -> Result<u32, ConfigError> {
    value
        .as_integer()
        .and_then(|value| u32::try_from(value).ok())
        .map_or_else(|| refuse("expected a number"), Ok)
}

fn signed(value: Value) -> Result<i32, ConfigError> {
    value
        .as_integer()
        .and_then(|value| i32::try_from(value).ok())
        .map_or_else(|| refuse("expected a number"), Ok)
}

fn small(value: Value) -> Result<u8, ConfigError> {
    value
        .as_integer()
        .and_then(|value| u8::try_from(value).ok())
        .map_or_else(|| refuse("expected a small number"), Ok)
}

fn positive(value: Value) -> Result<Positive, ConfigError> {
    Positive::new(number(value)?).map_or_else(|| refuse("expected a positive number"), Ok)
}

fn text(value: Value) -> Result<String, ConfigError> {
    match value {
        Value::String(text) => Ok(text),
        _ => refuse("expected text"),
    }
}

fn list<T>(
    value: Value,
    decode: impl Fn(Value) -> Result<T, ConfigError>,
) -> Result<Vec<T>, ConfigError> {
    match value {
        Value::Array(values) => values.into_iter().map(decode).collect(),
        _ => refuse("expected a list"),
    }
}

fn texts(value: Value) -> Result<Vec<String>, ConfigError> {
    list(value, text)
}

fn parsed<T: FromStr>(value: Value) -> Result<T, ConfigError> {
    text(value)?.parse().or_else(|_| refuse("malformed text"))
}

fn named<T: Copy>(value: Value, names: &[(&str, T)]) -> Result<T, ConfigError> {
    let wanted = text(value)?;
    names
        .iter()
        .find(|(name, _)| *name == wanted)
        .map_or_else(|| refuse("unknown name"), |(_, named)| Ok(*named))
}

fn relative(value: Value) -> Result<RelativeAmount, ConfigError> {
    match value {
        Value::Integer(_) => signed(value).map(RelativeAmount::Pixels),
        _ => parsed(value),
    }
}

fn positive_relative(value: Value) -> Result<PositiveRelativeAmount, ConfigError> {
    PositiveRelativeAmount::try_from(relative(value)?).or_else(|_| refuse("not positive"))
}

fn axis(value: Value) -> Result<AxisPosition, ConfigError> {
    match value {
        Value::Integer(_) => {
            AxisPosition::from_pixels(signed(value)?).or_else(|_| refuse("no position"))
        }
        _ => parsed(value),
    }
}

fn output_target(value: Value) -> Result<OutputTarget, ConfigError> {
    match value {
        Value::Integer(_) => {
            let index = number(value)?;
            OutputTarget::from_index(index, &index.to_string()).or_else(|_| refuse("no output"))
        }
        _ => parsed(value),
    }
}

fn basis(value: Value) -> Result<SizeBasis, ConfigError> {
    named(value, &[("outer", SizeBasis::Outer), ("content", SizeBasis::Content)])
}

fn kind(value: Value) -> Result<ApplicationKind, ConfigError> {
    named(
        value,
        &[
            ("normal", ApplicationKind::Normal),
            ("dialog", ApplicationKind::Dialog),
            ("utility", ApplicationKind::Utility),
        ],
    )
}

fn edge(value: Value) -> Result<EdgeDirection, ConfigError> {
    named(
        value,
        &[
            ("left", EdgeDirection::Left),
            ("west", EdgeDirection::Left),
            ("right", EdgeDirection::Right),
            ("east", EdgeDirection::Right),
            ("up", EdgeDirection::Up),
            ("north", EdgeDirection::Up),
            ("down", EdgeDirection::Down),
            ("south", EdgeDirection::Down),
        ],
    )
}

fn direction(value: Value) -> Result<WindowDirection, ConfigError> {
    named(
        value,
        &[
            ("left", WindowDirection::Left),
            ("west", WindowDirection::Left),
            ("right", WindowDirection::Right),
            ("east", WindowDirection::Right),
            ("up", WindowDirection::Up),
            ("north", WindowDirection::Up),
            ("down", WindowDirection::Down),
            ("south", WindowDirection::Down),
            ("up_left", WindowDirection::UpLeft),
            ("northwest", WindowDirection::UpLeft),
            ("north_west", WindowDirection::UpLeft),
            ("up_right", WindowDirection::UpRight),
            ("northeast", WindowDirection::UpRight),
            ("north_east", WindowDirection::UpRight),
            ("down_left", WindowDirection::DownLeft),
            ("southwest", WindowDirection::DownLeft),
            ("south_west", WindowDirection::DownLeft),
            ("down_right", WindowDirection::DownRight),
            ("southeast", WindowDirection::DownRight),
            ("south_east", WindowDirection::DownRight),
        ],
    )
}

fn query_workspace(value: Value) -> Result<ActionQueryWorkspace, ConfigError> {
    match value {
        Value::Integer(_) => positive(value).map(ActionQueryWorkspace::Number),
        _ => named(
            value,
            &[
                ("current", ActionQueryWorkspaceRelation::Current),
                ("other", ActionQueryWorkspaceRelation::Other),
                ("last", ActionQueryWorkspaceRelation::Last),
            ],
        )
        .map(ActionQueryWorkspace::Relative),
    }
}

fn query(value: Value) -> Result<ActionQuery, ConfigError> {
    let mut fields = Fields::of(value)?;
    let mut query = ActionQuery::default();
    fields.read("target", &mut query.target, |value| {
        named(
            value,
            &[("action", ActionQueryTarget::Action), ("focused", ActionQueryTarget::Focused)],
        )
    })?;
    query.shaded = fields.option("shaded", boolean)?;
    query.maximized = fields.option("maximized", boolean)?;
    query.maximized_horizontal = fields.option("maximized_horizontal", boolean)?;
    query.maximized_vertical = fields.option("maximized_vertical", boolean)?;
    query.minimized = fields.option("minimized", boolean)?;
    query.fullscreen = fields.option("fullscreen", boolean)?;
    query.focused = fields.option("focused", boolean)?;
    query.focusable = fields.option("focusable", boolean)?;
    query.urgent = fields.option("urgent", boolean)?;
    query.decorated = fields.option("decorated", boolean)?;
    query.sticky = fields.option("sticky", boolean)?;
    query.workspace = fields.option("workspace", query_workspace)?;
    query.active_workspace = fields.option("active_workspace", positive)?;
    query.output = fields.option("output", positive)?;
    query.name = fields.option("name", text)?;
    query.class = fields.option("class", text)?;
    query.role = fields.option("role", text)?;
    query.title = fields.option("title", text)?;
    query.kind = fields.option("kind", kind)?;
    fields.finish()?;
    Ok(query)
}

fn queries(value: Value) -> Result<Vec<ActionQuery>, ConfigError> {
    list(value, query)
}

fn startup(value: Value) -> Result<StartupNotification, ConfigError> {
    let mut fields = Fields::of(value)?;
    let notification = StartupNotification {
        name: fields.option("name", text)?,
        icon: fields.option("icon", text)?,
        wm_class: fields.option("wm_class", text)?,
    };
    fields.finish()?;
    Ok(notification)
}

fn maximize_direction(value: Value) -> Result<MaximizeDirection, ConfigError> {
    named(
        value,
        &[
            ("both", MaximizeDirection::Both),
            ("horizontal", MaximizeDirection::Horizontal),
            ("horz", MaximizeDirection::Horizontal),
            ("vertical", MaximizeDirection::Vertical),
            ("vert", MaximizeDirection::Vertical),
        ],
    )
}

fn placement(value: Value) -> Result<WorkspacePlacement, ConfigError> {
    named(
        value,
        &[("last", WorkspacePlacement::Last), ("current", WorkspacePlacement::Current)],
    )
}

fn actions(value: Value) -> Result<Vec<Action>, ConfigError> {
    list(value, action)
}

fn action(value: Value) -> Result<Action, ConfigError> {
    let mut fields = Fields::of(value)?;
    let kind = fields.need("type", text)?;
    let action = match kind.as_str() {
        "execute" => Action::Execute {
            command: fields.need("command", text)?,
            prompt: fields.option("prompt", text)?,
            startup_notify: fields.option("startup_notify", startup)?,
        },
        "launch_terminal" => Action::LaunchTerminal,
        "show_menu" => Action::ShowMenu { menu: fields.need("menu", text)? },
        "restart" => Action::Restart { command: fields.option("command", text)? },
        "session_logout" => Action::SessionLogout {
            prompt: fields.option("prompt", boolean)?.unwrap_or(true),
        },
        "debug" => Action::Debug { message: fields.need("message", text)? },
        "if" => Action::If {
            queries: fields.need("query", queries)?,
            then_actions: fields.need("then", actions)?,
            else_actions: fields.option("else", actions)?.unwrap_or_default(),
        },
        "for_each" => Action::ForEach {
            queries: fields.need("query", queries)?,
            then_actions: fields.need("then", actions)?,
            else_actions: fields.option("else", actions)?.unwrap_or_default(),
            none: fields.option("none", actions)?.unwrap_or_default(),
        },
        "stop" => Action::Stop,
        "close" => Action::Close,
        "kill" => Action::Kill,
        "focus" => Action::Focus { here: fields.option("here", boolean)?.unwrap_or(false) },
        "focus_to_bottom" => Action::FocusToBottom,
        "unfocus" => Action::Unfocus,
        "focus_fallback" => Action::FocusFallback,
        "raise" => Action::Raise,
        "lower" => Action::Lower,
        "raise_lower" => Action::RaiseLower,
        "maximize" => Action::Maximize {
            direction: fields
                .option("direction", maximize_direction)?
                .unwrap_or(MaximizeDirection::Both),
        },
        "unmaximize" => Action::Unmaximize {
            direction: fields
                .option("direction", maximize_direction)?
                .unwrap_or(MaximizeDirection::Both),
        },
        "toggle_maximize_horizontal" => Action::ToggleMaximizeHorizontal,
        "toggle_maximize_vertical" => Action::ToggleMaximizeVertical,
        "toggle_fullscreen" => Action::ToggleFullscreen,
        "toggle_always_on_top" => Action::ToggleAlwaysOnTop,
        "toggle_always_on_bottom" => Action::ToggleAlwaysOnBottom,
        "send_to_layer" => Action::SendToLayer {
            layer: fields.need("layer", |value| {
                named(
                    value,
                    &[
                        ("below", LayerTarget::Below),
                        ("bottom", LayerTarget::Below),
                        ("normal", LayerTarget::Normal),
                        ("middle", LayerTarget::Normal),
                        ("above", LayerTarget::Above),
                        ("top", LayerTarget::Above),
                    ],
                )
            })?,
        },
        "decorate" => Action::Decorate,
        "undecorate" => Action::Undecorate,
        "toggle_decorations" => Action::ToggleDecorations,
        "shade" => Action::Shade,
        "unshade" => Action::Unshade,
        "shade_lower" => Action::ShadeLower,
        "unshade_raise" => Action::UnshadeRaise,
        "toggle_show_desktop" => Action::ToggleShowDesktop {
            strict: fields.option("strict", boolean)?.unwrap_or(false),
        },
        "move" => Action::Move,
        "resize" => Action::Resize {
            edge: fields.option("edge", |value| {
                named(
                    value,
                    &[("top_left", ResizeEdge::TopLeft), ("topleft", ResizeEdge::TopLeft)],
                )
            })?,
        },
        "move_relative" => Action::MoveRelative {
            x: fields.option("x", relative)?.unwrap_or(RelativeAmount::Pixels(0)),
            y: fields.option("y", relative)?.unwrap_or(RelativeAmount::Pixels(0)),
        },
        "resize_relative" => Action::ResizeRelative {
            left: fields.option("left", relative)?.unwrap_or(RelativeAmount::Pixels(0)),
            right: fields.option("right", relative)?.unwrap_or(RelativeAmount::Pixels(0)),
            top: fields.option("top", relative)?.unwrap_or(RelativeAmount::Pixels(0)),
            bottom: fields.option("bottom", relative)?.unwrap_or(RelativeAmount::Pixels(0)),
        },
        "move_to_edge" => Action::MoveToEdge { direction: fields.need("direction", edge)? },
        "grow_to_edge" => Action::GrowToEdge { direction: fields.need("direction", edge)? },
        "grow_to_fill" => Action::GrowToFill,
        "shrink_to_edge" => Action::ShrinkToEdge { direction: fields.need("direction", edge)? },
        "move_resize_to" => Action::MoveResizeTo {
            x: fields.option("x", axis)?,
            y: fields.option("y", axis)?,
            width: fields.option("width", positive_relative)?,
            height: fields.option("height", positive_relative)?,
            width_basis: fields.option("width_basis", basis)?.unwrap_or(SizeBasis::Outer),
            height_basis: fields.option("height_basis", basis)?.unwrap_or(SizeBasis::Outer),
            output: fields.option("output", output_target)?.unwrap_or(OutputTarget::Current),
        },
        "move_to_center" => Action::MoveToCenter {
            output: fields.option("output", output_target)?.unwrap_or(OutputTarget::Current),
        },
        "focus_direction" | "directional_target_window" => Action::FocusDirection {
            direction: fields.need("direction", direction)?,
        },
        "cycle_direction" | "directional_cycle_windows" => Action::CycleDirection {
            direction: fields.need("direction", direction)?,
        },
        "previous_workspace" => Action::PreviousWorkspace,
        "next_workspace" => Action::NextWorkspace,
        "last_workspace" => Action::LastWorkspace,
        "add_workspace" => Action::AddWorkspace {
            at: fields.option("at", placement)?.unwrap_or(WorkspacePlacement::Last),
        },
        "remove_workspace" => Action::RemoveWorkspace {
            at: fields.option("at", placement)?.unwrap_or(WorkspacePlacement::Last),
        },
        "workspace_right" => Action::WorkspaceRight { wrap: fields.option("wrap", boolean)? },
        "switch_workspace" => Action::SwitchWorkspace {
            workspace: fields.need("workspace", number)?,
        },
        "move_to_workspace" => Action::MoveToWorkspace {
            workspace: fields.need("workspace", number)?,
            follow: fields.option("follow", boolean)?.unwrap_or(true),
        },
        "move_to_last_workspace" => Action::MoveToLastWorkspace {
            follow: fields.option("follow", boolean)?.unwrap_or(true),
        },
        "exit" => Action::Exit { prompt: fields.option("prompt", boolean)?.unwrap_or(true) },
        _ => return refuse("unknown action"),
    };
    fields.finish()?;
    Ok(action)
}

fn bound_actions(fields: &mut Fields) -> Result<Vec<Action>, ConfigError> {
    let single = fields.option("action", action)?;
    let several = fields.option("actions", actions)?.unwrap_or_default();
    match binding_actions(single, several) {
        Ok(actions) => Ok(actions),
        Err(BindingActionsError::Both) => refuse("action or actions, not both"),
        Err(BindingActionsError::Missing) => refuse("at least one action"),
    }
}

fn context(value: Value) -> Result<MouseContext, ConfigError> {
    named(
        value,
        &[
            ("root", MouseContext::Root),
            ("client", MouseContext::Client),
            ("titlebar", MouseContext::Titlebar),
            ("bottom_right", MouseContext::BottomRight),
        ],
    )
}

fn trigger(value: Value) -> Result<MouseTrigger, ConfigError> {
    named(
        value,
        &[
            ("press", MouseTrigger::Press),
            ("click", MouseTrigger::Click),
            ("drag", MouseTrigger::Drag),
        ],
    )
}

fn mouse_binding(value: Value) -> Result<MouseBinding, ConfigError> {
    let mut fields = Fields::of(value)?;
    let binding = MouseBinding {
        context: fields.need("context", context)?,
        button: fields.need("button", parsed)?,
        trigger: fields.need("trigger", trigger)?,
        actions: bound_actions(&mut fields)?,
    };
    fields.finish()?;
    Ok(binding)
}

fn mouse_selector(value: Value) -> Result<MouseBindingSelector, ConfigError> {
    let mut fields = Fields::of(value)?;
    let selector = MouseBindingSelector {
        context: fields.need("context", context)?,
        button: fields.need("button", parsed)?,
        trigger: fields.need("trigger", trigger)?,
    };
    fields.finish()?;
    Ok(selector)
}

fn key_binding(value: Value) -> Result<KeyBinding, ConfigError> {
    let mut fields = Fields::of(value)?;
    let binding = KeyBinding {
        key: fields.need("key", parsed)?,
        actions: bound_actions(&mut fields)?,
    };
    fields.finish()?;
    Ok(binding)
}

fn menu_entry(value: Value) -> Result<MenuEntry, ConfigError> {
    let mut fields = Fields::of(value)?;
    let kind = fields.need("type", text)?;
    let entry = match kind.as_str() {
        "item" => MenuEntry::Item {
            label: fields.need("label", text)?,
            actions: bound_actions(&mut fields)?,
        },
        "submenu" => MenuEntry::Submenu {
            label: fields.need("label", text)?,
            menu: fields.need("menu", text)?,
        },
        "separator" => MenuEntry::Separator { label: fields.option("label", text)? },
        _ => return refuse("unknown entry"),
    };
    fields.finish()?;
    Ok(entry)
}

fn menu_definition(value: Value) -> Result<MenuDefinition, ConfigError> {
    let mut fields = Fields::of(value)?;
    let definition = MenuDefinition {
        id: fields.need("id", text)?,
        title: fields.need("title", text)?,
        source: fields
            .option("source", |value| {
                named(
                    value,
                    &[
                        ("static", MenuSource::Static),
                        ("command", MenuSource::Command),
                        ("client", MenuSource::Client),
                        ("windows", MenuSource::Windows),
                    ],
                )
            })?
            .unwrap_or(MenuSource::Static),
        command: fields.option("command", text)?,
        entries: fields
            .option("entries", |value| list(value, menu_entry))?
            .unwrap_or_default(),
    };
    fields.finish()?;
    Ok(definition)
}

fn modifier(value: Value) -> Result<MouseModifier, ConfigError> {
    named(value, &[("alt", MouseModifier::Alt), ("super", MouseModifier::Super)])
}

fn matcher(value: Value) -> Result<ApplicationMatcher, ConfigError> {
    let mut fields = Fields::of(value)?;
    let matcher = ApplicationMatcher {
        name: fields.option("name", text)?,
        class: fields.option("class", text)?,
        group_name: fields.option("group_name", text)?,
        group_class: fields.option("group_class", text)?,
        role: fields.option("role", text)?,
        title: fields.option("title", text)?,
        kind: fields.option("kind", kind)?,
    };
    fields.finish()?;
    Ok(matcher)
}

fn position(value: Value) -> Result<ApplicationPosition, ConfigError> {
    let mut fields = Fields::of(value)?;
    let position = ApplicationPosition {
        x: fields.option("x", axis)?,
        y: fields.option("y", axis)?,
        output: fields.option("output", output_target)?.unwrap_or(OutputTarget::Current),
        force: fields.option("force", boolean)?.unwrap_or(false),
    };
    fields.finish()?;
    Ok(position)
}

fn size(value: Value) -> Result<ApplicationSize, ConfigError> {
    let mut fields = Fields::of(value)?;
    let size = ApplicationSize {
        width: fields.option("width", positive_relative)?,
        height: fields.option("height", positive_relative)?,
        width_basis: fields.option("width_basis", basis)?.unwrap_or(SizeBasis::Outer),
        height_basis: fields.option("height_basis", basis)?.unwrap_or(SizeBasis::Outer),
    };
    fields.finish()?;
    Ok(size)
}

fn rule(value: Value) -> Result<ApplicationRule, ConfigError> {
    let mut fields = Fields::of(value)?;
    let matcher = fields.need("match", matcher)?;
    let settings = ApplicationSettings {
        workspace: fields.option("workspace", |value| match value {
            Value::Integer(_) => ApplicationWorkspace::from_index(number(value)?)
                .or_else(|_| refuse("one-based")),
            _ => ApplicationWorkspace::parse(&text(value)?).or_else(|_| refuse("no workspace")),
        })?,
        layer: fields.option("layer", |value| {
            named(
                value,
                &[
                    ("below", ApplicationLayer::Below),
                    ("normal", ApplicationLayer::Normal),
                    ("above", ApplicationLayer::Above),
                ],
            )
        })?,
        decorated: fields.option("decorated", boolean)?,
        focus: fields.option("focus", boolean)?,
        minimized: fields.option("minimized", boolean)?,
        shaded: fields.option("shaded", boolean)?,
        skip_pager: fields.option("skip_pager", boolean)?,
        skip_taskbar: fields.option("skip_taskbar", boolean)?,
        fullscreen: fields.option("fullscreen", boolean)?,
        maximized: fields.option("maximized", |value| match value {
            Value::Boolean(enabled) => Ok(ApplicationMaximized::from_enabled(enabled)),
            _ => ApplicationMaximized::parse(&text(value)?)
                .map_or_else(|| refuse("no axes"), Ok),
        })?,
        position: fields.option("position", position)?,
        size: fields.option("size", size)?,
        agent_visibility: fields.option("agent_visibility", |value| {
            named(
                value,
                &[
                    ("visible", AgentVisibility::Visible),
                    ("redacted", AgentVisibility::Redacted),
                    ("hidden", AgentVisibility::Hidden),
                ],
            )
        })?,
    };
    fields.finish()?;
    Ok(ApplicationRule { matcher, settings })
}

fn refresh(value: &str) -> Option<u32> {
    let refresh = value.parse::<f64>().ok()?;
    let millihz = (refresh * 1000.0).round();
    if !refresh.is_finite()
        || !(1.0..=1_000_000.0).contains(&millihz)
        || ((refresh * 1000.0) - millihz).abs() > 0.000_001
    {
        return None;
    }
    u32::try_from(millihz as u64).ok()
}

fn mode(value: Value) -> Result<OutputModeConfig, ConfigError> {
    let value = text(value)?;
    let rate = OutputModeConfig::refresh_text(&value).and_then(|text| refresh(&text));
    OutputModeConfig::parse(&value, rate).or_else(|_| refuse("no mode"))
}

fn scale(value: Value) -> Result<OutputScale, ConfigError> {
    let factor = match value {
        Value::Integer(value) => value as f64,
        Value::Float(value) => value,
        _ => return refuse("expected a number"),
    };
    let units = (factor * 120.0).round();
    if !(0.0..=65_535.0).contains(&units) || (factor * 120.0 - units).abs() > 0.000_001 {
        return refuse("no scale");
    }
    OutputScale::from_units(units as u16).map_or_else(|| refuse("no scale"), Ok)
}

fn output(value: Value) -> Result<OutputConfig, ConfigError> {
    let mut fields = Fields::of(value)?;
    let mut output = OutputConfig::default();
    fields.read("name", &mut output.name, text)?;
    fields.read("enabled", &mut output.enabled, boolean)?;
    output.mode = fields.option("mode", mode)?;
    output.position = fields.option("position", |value| {
        let mut fields = Fields::of(value)?;
        let position = OutputPosition {
            x: fields.need("x", signed)?,
            y: fields.need("y", signed)?,
        };
        fields.finish()?;
        Ok(position)
    })?;
    fields.read("transform", &mut output.transform, |value| {
        named(
            value,
            &[("normal", OutputTransform::Normal), ("rotate90", OutputTransform::Rotate90)],
        )
    })?;
    fields.read("scale", &mut output.scale, scale)?;
    fields.read("primary", &mut output.primary, boolean)?;
    fields.finish()?;
    Ok(output)
}

fn granted(value: Value) -> Result<GrantedCapability, ConfigError> {
    let name = text(value)?;
    let atoms = match name.as_str() {
        "observe" => vec![Capability::ObserveStructure, Capability::ObserveTitles],
        "accessibility" => vec![Capability::ObserveAccessibility],
        "manage.activate" => {
            return Ok(GrantedCapability::Atom(name, Capability::ManageActivate));
        }
        _ => return refuse("unknown agent capability"),
    };
    Ok(GrantedCapability::Bundle(name, CapabilitySet::of(&atoms)))
}

fn grant(value: Value) -> Result<AgentGrant, ConfigError> {
    let mut fields = Fields::of(value)?;
    let grant = AgentGrant {
        label: fields.option("label", text)?.unwrap_or_default(),
        executable: fields.need("executable", text)?,
        uid: fields.option("uid", number)?,
        capabilities: fields.need("capabilities", |value| list(value, granted))?,
        scope: fields.option("scope", matcher)?,
    };
    fields.finish()?;
    Ok(grant)
}

fn read_agent(agent: &mut AgentConfig, value: Value) -> Result<(), ConfigError> {
    let mut fields = Fields::of(value)?;
    fields.read("enabled", &mut agent.enabled, boolean)?;
    fields.read("socket", &mut agent.socket, text)?;
    fields.read("policy", &mut agent.policy, |value| {
        named(value, &[("deny", AgentPolicy::Deny), ("ask", AgentPolicy::Ask)])
    })?;
    fields.read("grants", &mut agent.grants, |value| list(value, grant))?;
    fields.read("suppression_ms", &mut agent.suppression_ms, number)?;
    fields.read("kill_chord", &mut agent.kill_chord, parsed)?;
    if let Some(value) = fields.0.remove("launch") {
        let mut fields = Fields::of(value)?;
        fields.read("policy", &mut agent.launch.policy, |value| {
            named(
                value,
                &[
                    ("deny", LaunchPolicy::Deny),
                    ("allow_listed", LaunchPolicy::AllowListed),
                    ("allow_installed", LaunchPolicy::AllowInstalled),
                ],
            )
        })?;
        fields.read("allow", &mut agent.launch.allow, texts)?;
        fields.read("deny", &mut agent.launch.deny, texts)?;
        fields.read("user_entries", &mut agent.launch.user_entries, boolean)?;
        fields.finish()?;
    }
    fields.finish()
}

fn read_panel(config: &mut Config, value: Value) -> Result<(), ConfigError> {
    let panel = &mut config.panel;
    let mut fields = Fields::of(value)?;
    fields.read("enabled", &mut panel.enabled, boolean)?;
    fields.read("position", &mut panel.position, |value| {
        named(value, &[("top", PanelPosition::Top), ("bottom", PanelPosition::Bottom)])
    })?;
    fields.read("height", &mut panel.height, number)?;
    fields.read("padding", &mut panel.padding, number)?;
    fields.read("spacing", &mut panel.spacing, number)?;
    fields.read("task_max_width", &mut panel.task_max_width, number)?;
    fields.read("task_scope", &mut panel.task_scope, |value| {
        named(
            value,
            &[
                ("current_workspace", PanelTaskScope::CurrentWorkspace),
                ("all_workspaces", PanelTaskScope::AllWorkspaces),
            ],
        )
    })?;
    fields.read("items", &mut panel.items, |value| {
        list(value, |value| {
            named(
                value,
                &[
                    ("launchers", PanelItem::Launchers),
                    ("workspaces", PanelItem::Workspaces),
                    ("tasks", PanelItem::Tasks),
                    ("spacer", PanelItem::Spacer),
                    ("clock", PanelItem::Clock),
                ],
            )
        })
    })?;
    fields.read("launchers", &mut panel.launchers, texts)?;
    fields.read("clock_format", &mut panel.clock_format, text)?;
    fields.read("show_clock", &mut panel.show_clock, boolean)?;
    fields.finish()
}

fn read_mouse(config: &mut Config, value: Value) -> Result<(), ConfigError> {
    let mouse = &mut config.mouse;
    let mut fields = Fields::of(value)?;
    fields.read("inherit_defaults", &mut mouse.inherit_defaults, boolean)?;
    fields.read("disabled_bindings", &mut mouse.disabled_bindings, |value| {
        list(value, mouse_selector)
    })?;
    fields.read("modifier", &mut mouse.modifier, modifier)?;
    fields.read("compatibility_modifiers", &mut mouse.compatibility_modifiers, |value| {
        list(value, modifier)
    })?;
    fields.read("move_button", &mut mouse.move_button, small)?;
    fields.read("resize_button", &mut mouse.resize_button, small)?;
    fields.read("snap_to_windows", &mut mouse.snap_to_windows, boolean)?;
    fields.read("edge_resistance", &mut mouse.edge_resistance, number)?;
    fields.read("drag_threshold", &mut mouse.drag_threshold, number)?;
    fields.read("double_click_ms", &mut mouse.double_click_ms, number)?;
    fields.read("bindings", &mut mouse.bindings, |value| list(value, mouse_binding))?;
    fields.finish()
}

fn read_keyboard(config: &mut Config, value: Value) -> Result<(), ConfigError> {
    let keyboard = &mut config.keyboard;
    let mut fields = Fields::of(value)?;
    fields.read("model", &mut keyboard.model, text)?;
    fields.read("layout", &mut keyboard.layout, text)?;
    fields.read("variant", &mut keyboard.variant, text)?;
    fields.read("options", &mut keyboard.options, text)?;
    fields.read("inherit_defaults", &mut keyboard.inherit_defaults, boolean)?;
    fields.read("disabled_bindings", &mut keyboard.disabled_bindings, |value| {
        list(value, parsed)
    })?;
    fields.read("chain_quit_key", &mut keyboard.chain_quit_key, parsed)?;
    fields.read("chain_timeout_ms", &mut keyboard.chain_timeout_ms, number)?;
    fields.read("bindings", &mut keyboard.bindings, |value| list(value, key_binding))?;
    fields.finish()
}

fn read_theme(config: &mut Config, value: Value) -> Result<(), ConfigError> {
    let theme = &mut config.theme;
    let mut fields = Fields::of(value)?;
    fields.read("border_width", &mut theme.border_width, number)?;
    fields.read("titlebar_height", &mut theme.titlebar_height, number)?;
    fields.read("font", &mut theme.font, text)?;
    fields.read("title_alignment", &mut theme.title_alignment, |value| {
        named(
            value,
            &[
                ("left", TitleAlignment::Left),
                ("center", TitleAlignment::Center),
                ("right", TitleAlignment::Right),
            ],
        )
    })?;
    fields.read("title_padding", &mut theme.title_padding, number)?;
    fields.read("active_border", &mut theme.active_border, parsed)?;
    fields.read("inactive_border", &mut theme.inactive_border, parsed)?;
    fields.read("urgent_border", &mut theme.urgent_border, parsed)?;
    fields.read("active_titlebar", &mut theme.active_titlebar, parsed)?;
    fields.read("inactive_titlebar", &mut theme.inactive_titlebar, parsed)?;
    fields.read("urgent_titlebar", &mut theme.urgent_titlebar, parsed)?;
    fields.read("title_text", &mut theme.title_text, parsed)?;
    fields.read("minimize_button", &mut theme.minimize_button, parsed)?;
    fields.read("maximize_button", &mut theme.maximize_button, parsed)?;
    fields.read("close_button", &mut theme.close_button, parsed)?;
    fields.read("button_glyph", &mut theme.button_glyph, parsed)?;
    fields.finish()
}

fn read_section(config: &mut Config, section: &str, value: Value) -> Result<(), ConfigError> {
    match section {
        "mouse" => return read_mouse(config, value),
        "keyboard" => return read_keyboard(config, value),
        "panel" => return read_panel(config, value),
        "theme" => return read_theme(config, value),
        "agent" => return read_agent(&mut config.agent, value),
        "applications" => {
            config.applications = list(value, rule)?;
            return Ok(());
        }
        _ => {}
    }
    let mut fields = Fields::of(value)?;
    match section {
        "focus" => {
            fields.read("focus_new", &mut config.focus.focus_new, boolean)?;
            fields.read("follow_mouse", &mut config.focus.follow_mouse, boolean)?;
            fields.read("raise_on_focus", &mut config.focus.raise_on_focus, boolean)?;
        }
        "switcher" => {
            fields.read("width", &mut config.switcher.width, number)?;
            fields.read("row_height", &mut config.switcher.row_height, number)?;
            fields.read("max_rows", &mut config.switcher.max_rows, number)?;
        }
        "menu" => {
            fields.read("width", &mut config.menu.width, number)?;
            fields.read("max_rows", &mut config.menu.max_rows, number)?;
            fields.read("command_timeout_ms", &mut config.menu.command_timeout_ms, number)?;
            fields.read("definitions", &mut config.menu.definitions, |value| {
                list(value, menu_definition)
            })?;
        }
        "commands" => {
            fields.read("terminal", &mut config.commands.terminal, text)?;
            fields.read("screenshot", &mut config.commands.screenshot, text)?;
            fields.read("window_screenshot", &mut config.commands.window_screenshot, text)?;
            fields.read("session", &mut config.commands.session, text)?;
        }
        "shortcuts" => {
            fields.read("terminal", &mut config.shortcuts.terminal, parsed)?;
            fields.read("screenshot", &mut config.shortcuts.screenshot, parsed)?;
            fields.read("window_screenshot", &mut config.shortcuts.window_screenshot, parsed)?;
        }
        "margins" => {
            fields.read("top", &mut config.margins.top, number)?;
            fields.read("right", &mut config.margins.right, number)?;
            fields.read("bottom", &mut config.margins.bottom, number)?;
            fields.read("left", &mut config.margins.left, number)?;
        }
        "outputs" => {
            fields.read("entries", &mut config.outputs.entries, |value| list(value, output))?;
        }
        "wayland" => {
            fields.read("xwayland", &mut config.wayland.xwayland, boolean)?;
            fields.read("input_method", &mut config.wayland.input_method, texts)?;
        }
        "workspaces" => {
            fields.read("names", &mut config.workspaces.names, texts)?;
            fields.read("columns", &mut config.workspaces.columns, number)?;
            fields.read("wrap", &mut config.workspaces.wrap, boolean)?;
            fields.read("initial", &mut config.workspaces.initial, number)?;
        }
        _ => return refuse("unknown section"),
    }
    fields.finish()
}

/// Turns configuration text into values.
fn decode(source: &str) -> Result<Config, ConfigError> {
    let table = source
        .parse::<Table>()
        .or_else(|error| refuse(&error.to_string()))?;
    let mut config = Config::default();
    for (section, value) in table {
        read_section(&mut config, &section, value)?;
    }
    Ok(config)
}

/// Turns command-menu text into entries.
fn decode_entries(source: &str) -> Result<Vec<MenuEntry>, ConfigError> {
    let table = source
        .parse::<Table>()
        .or_else(|error| refuse(&error.to_string()))?;
    let mut fields = Fields(table);
    let entries = fields.need("entries", |value| list(value, menu_entry))?;
    fields.finish()?;
    Ok(entries)
}

fn parse(source: &str) -> Result<Config, ConfigError> {
    Config::parse(source, &decode)
}

/// A commented configuration with a few settings of every kind.
const SAMPLE: &str = "\
# Focus of windows.
[focus]
focus_new = true
# Focus clients as the pointer enters them.
follow_mouse = false

[workspaces]
names = ['1', '2', '3', '4']

[theme]
# Decoration border width.
border_width = 2

# Bindings stand over the standard ones.
[[keyboard.bindings]]
key = 'W-F9'
action = { type = 'close' }
";

fn color(packed: u32) -> RgbColor {
    RgbColor::new((packed >> 16) as u8, (packed >> 8) as u8, packed as u8)
}

fn check_action(action: Action, context: &str) -> Result<(), ConfigError> {
    let config = Config::default();
    let around = Surroundings {
        menus: &config.menu.definitions,
        workspaces: config.workspaces.names.len(),
    };
    around.validate_actions(&vec![action], &context.to_owned())
}

fn open(source: &str) -> Result<SettingsDocument, SettingsError> {
    SettingsDocument::parse(source, &decode)
}

#[test]
fn unknown_keys_are_rejected() {
    let error = parse("mystery = true").expect_err("unknown key must fail");
    assert!(matches!(error, ConfigError::Toml(_)));
}

#[test]
fn duplicate_mouse_actions_are_rejected() {
    let error = parse("[mouse]\nmove_button = 2\nresize_button = 2")
        .expect_err("duplicate button must fail");
    assert!(matches!(error, ConfigError::SameMouseButton(2)));
}

#[test]
fn mouse_drag_modifiers_include_alt_compatibility_without_duplicates() {
    let defaults = Config::default();
    assert_eq!(
        defaults.mouse.effective_modifiers(),
        [MouseModifier::Super, MouseModifier::Alt]
    );

    let configured =
        parse("[mouse]\nmodifier = 'alt'\ncompatibility_modifiers = ['alt', 'super']")
            .expect("valid compatible mouse modifiers");
    assert_eq!(
        configured.mouse.effective_modifiers(),
        [MouseModifier::Alt, MouseModifier::Super]
    );
}

#[test]
fn mouse_compatibility_modifier_count_is_bounded() {
    let error = parse(
        "[mouse]\ncompatibility_modifiers = ['alt', 'super', 'alt', 'super', 'alt']",
    )
    .expect_err("excessive compatibility aliases must fail");
    assert!(matches!(
        error,
        ConfigError::TooManyMouseCompatibilityModifiers(5)
    ));
}

#[test]
fn configured_mouse_bindings_layer_over_shared_defaults() {
    let config = parse(
        "[mouse]\n\
         disabled_bindings = [{ context = 'client', button = 'Middle', trigger = 'press' }]\n\
         [[mouse.bindings]]\ncontext = 'client'\nbutton = 'Left'\ntrigger = 'press'\n\
         action = { type = 'lower' }",
    )
    .expect("valid layered mouse bindings");
    let bindings = config.mouse.effective_bindings();
    assert_eq!(bindings.len(), 42);
    assert!(!bindings.iter().any(|binding| {
        binding.context == MouseContext::Client
            && binding.button == MouseChord::new(&[], MouseButton::Middle)
            && binding.trigger == MouseTrigger::Press
    }));
    assert!(bindings.iter().any(|binding| {
        binding.context == MouseContext::Client
            && binding.button == MouseChord::new(&[], MouseButton::Left)
            && binding.trigger == MouseTrigger::Press
            && binding.actions == [Action::Lower]
    }));
}

#[test]
fn mouse_context_fallbacks_are_shared_in_specific_to_general_order() {
    assert_eq!(
        mouse_context_chain(MouseContext::BottomRight),
        &[
            MouseContext::BottomRight,
            MouseContext::Border,
            MouseContext::Frame,
        ]
    );
    assert_eq!(
        mouse_context_chain(MouseContext::Close),
        &[
            MouseContext::Close,
            MouseContext::Titlebar,
            MouseContext::Frame,
        ]
    );
    assert_eq!(
        mouse_context_chain(MouseContext::Client),
        &[MouseContext::Client, MouseContext::Frame]
    );
}

#[test]
fn inherited_mouse_bindings_can_be_replaced_or_disabled_once() {
    let replaced = parse(
        "[mouse]\ninherit_defaults = false\n\
         [[mouse.bindings]]\ncontext = 'root'\nbutton = 'Up'\ntrigger = 'click'\n\
         action = { type = 'next_workspace' }",
    )
    .expect("valid replacement mouse map");
    assert_eq!(replaced.mouse.effective_bindings().len(), 1);

    let duplicate = parse(
        "[mouse]\ndisabled_bindings = [\n\
         { context = 'client', button = 'Left', trigger = 'press' },\n\
         { context = 'client', button = 'Button1', trigger = 'press' }]",
    )
    .expect_err("duplicate inherited omissions must fail");
    assert!(matches!(
        duplicate,
        ConfigError::DuplicateDisabledMouseBinding(_)
    ));
}

#[test]
fn excessive_edge_resistance_is_rejected() {
    let error = parse("[mouse]\nedge_resistance = 257")
        .expect_err("oversized resistance must fail");
    assert!(matches!(error, ConfigError::EdgeResistanceTooStrong(257)));
}

#[test]
fn window_snapping_defaults_on_and_can_be_disabled() {
    assert!(
        parse("")
            .expect("defaults parse")
            .mouse
            .snap_to_windows
    );
    assert!(
        !parse("[mouse]\nsnap_to_windows = false")
            .expect("window snapping can be disabled")
            .mouse
            .snap_to_windows
    );
}

#[test]
fn mouse_chords_contexts_and_ordered_actions_are_typed() {
    let chord = "Control-W-Button3"
        .parse::<MouseChord>()
        .expect("valid pointer chord");
    assert_eq!(chord.text(), "C-W-Right");
    assert_eq!(chord.button(), MouseButton::Right);
    assert_eq!(
        chord.modifiers(),
        [KeyboardModifier::Control, KeyboardModifier::Super]
    );

    let config = parse(
        "[[mouse.bindings]]\ncontext = 'bottom_right'\nbutton = 'W-Left'\n\
         trigger = 'drag'\nactions = [{ type = 'focus' }, { type = 'resize' }]\n\
         [[mouse.bindings]]\ncontext = 'root'\nbutton = 'Up'\ntrigger = 'click'\n\
         action = { type = 'previous_workspace' }",
    )
    .expect("valid context-aware pointer bindings");
    assert_eq!(config.mouse.bindings.len(), 2);
    assert_eq!(config.mouse.bindings[0].actions.len(), 2);
    assert_eq!(
        config.mouse.bindings[1].actions,
        [Action::PreviousWorkspace]
    );
}

#[test]
fn ambiguous_or_unbounded_mouse_bindings_are_rejected() {
    assert!("W-W-Left".parse::<MouseChord>().is_err());
    let duplicate = parse(
        "[[mouse.bindings]]\ncontext = 'titlebar'\nbutton = 'Left'\ntrigger = 'click'\n\
         action = { type = 'raise' }\n\
         [[mouse.bindings]]\ncontext = 'titlebar'\nbutton = 'Button1'\ntrigger = 'click'\n\
         action = { type = 'lower' }",
    )
    .expect_err("canonical duplicate pointer binding must fail");
    assert!(matches!(duplicate, ConfigError::DuplicateMouseBinding(_)));
    assert!(matches!(
        parse("[mouse]\ndrag_threshold = 257"),
        Err(ConfigError::DragThresholdTooLarge(257))
    ));
    assert!(matches!(
        parse("[mouse]\ndouble_click_ms = 99"),
        Err(ConfigError::InvalidDoubleClickTime(99))
    ));
    let interactive = parse(
        "[[keyboard.bindings]]\nkey = 'W-m'\naction = { type = 'move' }\n\
         [[keyboard.bindings]]\nkey = 'W-r'\naction = { type = 'resize', edge = 'topleft' }",
    )
    .expect("interactive actions support keyboard mode and legacy edge names");
    assert_eq!(
        interactive.keyboard.bindings[1].actions,
        [Action::Resize {
            edge: Some(ResizeEdge::TopLeft),
        }]
    );
}

#[test]
fn colors_require_six_hex_digits() {
    assert_eq!("#12aBcF".parse::<RgbColor>(), Ok(color(0x12_ab_cf)));
    assert!("blue".parse::<RgbColor>().is_err());
}

#[test]
fn excessive_titlebar_height_is_rejected() {
    let error = parse("[theme]\ntitlebar_height = 129")
        .expect_err("oversized titlebar must fail");
    assert!(matches!(error, ConfigError::TitlebarTooTall(129)));
}

#[test]
fn panel_height_is_bounded_even_when_the_panel_is_disabled() {
    assert!(matches!(
        parse("[panel]\nheight = 19"),
        Err(ConfigError::InvalidPanelHeight(19))
    ));
}

#[test]
fn panel_layout_and_launchers_are_typed_and_bounded() {
    let config = parse(
        "[panel]\nitems = ['workspaces', 'tasks', 'spacer', 'clock', 'launchers']\n\
         launchers = ['org.example.Terminal.desktop']\n\
         task_scope = 'all_workspaces'\nclock_format = '%a %H:%M'\n\
         padding = 12\nspacing = 6\ntask_max_width = 280",
    )
    .expect("valid panel customization");
    assert_eq!(config.panel.items[0], PanelItem::Workspaces);
    assert_eq!(config.panel.task_scope, PanelTaskScope::AllWorkspaces);
    assert_eq!(config.panel.launchers, ["org.example.Terminal.desktop"]);

    assert!(matches!(
        parse("[panel]\nitems = ['clock', 'clock']"),
        Err(ConfigError::DuplicatePanelItem(PanelItem::Clock))
    ));
    assert!(matches!(
        parse("[panel]\nlaunchers = ['../terminal.desktop']"),
        Err(ConfigError::InvalidPanelLauncher(_))
    ));
    assert!(matches!(
        parse("[panel]\ntask_max_width = 79"),
        Err(ConfigError::InvalidPanelTaskWidth(79))
    ));
    assert!(matches!(
        parse("[panel]\nclock_format = ''"),
        Err(ConfigError::InvalidPanelClockFormat)
    ));
    assert!(matches!(
        parse("[panel]\nclock_format = '%Q'"),
        Err(ConfigError::InvalidPanelClockFormat)
    ));
}

#[test]
fn theme_typography_is_typed_and_bounded() {
    let config = parse(
        "[theme]\nfont = '-misc-fixed-medium-r-normal--13-120-75-75-c-70-iso8859-1'\n\
         title_alignment = 'center'\ntitle_padding = 12",
    )
    .expect("valid theme typography");
    assert_eq!(config.theme.title_alignment, TitleAlignment::Center);
    assert_eq!(config.theme.title_padding, 12);

    for font in ["", "   ", "bad\nfont", "å"] {
        assert!(matches!(
            parse(&format!("[theme]\nfont = {font:?}")),
            Err(ConfigError::InvalidThemeFont)
        ));
    }
    assert!(matches!(
        parse("[theme]\ntitle_padding = 65"),
        Err(ConfigError::TitlePaddingTooWide(65))
    ));
}

#[test]
fn wayland_xkb_names_are_typed_and_bounded() {
    let config = parse(
        "[keyboard]\nmodel = 'pc105'\nlayout = 'no'\nvariant = ''\noptions = 'compose:rwin'",
    )
    .expect("valid Norwegian XKB configuration");
    assert_eq!(config.keyboard.model, "pc105");
    assert_eq!(config.keyboard.layout, "no");
    assert_eq!(config.keyboard.options, "compose:rwin");

    assert!(matches!(
        parse("[keyboard]\nlayout = \"no\\n\""),
        Err(ConfigError::InvalidKeyboardXkbField("layout"))
    ));
    assert!(matches!(
        parse(&format!("[keyboard]\noptions = {:?}", "x".repeat(256))),
        Err(ConfigError::InvalidKeyboardXkbField("options"))
    ));
}

#[test]
fn focus_switcher_geometry_is_bounded() {
    assert!(matches!(
        parse("[switcher]\nwidth = 159"),
        Err(ConfigError::InvalidSwitcherWidth(159))
    ));
    assert!(matches!(
        parse("[switcher]\nrow_height = 65"),
        Err(ConfigError::InvalidSwitcherRowHeight(65))
    ));
    assert!(matches!(
        parse("[switcher]\nmax_rows = 0"),
        Err(ConfigError::InvalidSwitcherRows(0))
    ));
}

#[test]
fn menus_are_typed_and_validate_the_complete_graph() {
    let config = parse(
        "[mouse]\ninherit_defaults = false\nbindings = []\n[keyboard]\ninherit_defaults = false\nbindings = []\n\
         [menu]\nwidth = 300\n\
         [[menu.definitions]]\nid = 'root'\ntitle = 'Root'\n\
         [[menu.definitions.entries]]\ntype = 'item'\nlabel = 'Terminal'\n\
         actions = [{ type = 'execute', command = 'xterm' }, { type = 'next_workspace' }]\n\
         [[menu.definitions.entries]]\ntype = 'submenu'\nlabel = 'More'\nmenu = 'more'\n\
         [[menu.definitions]]\nid = 'more'\ntitle = 'More'\n\
         [[menu.definitions.entries]]\ntype = 'item'\nlabel = 'Back to root'\n\
         action = { type = 'show_menu', menu = 'root' }",
    )
    .expect("valid named menu graph");
    assert_eq!(config.menu.width, 300);
    assert_eq!(config.menu.definitions.len(), 2);
    assert!(matches!(
        &config.menu.definitions[0].entries[0],
        MenuEntry::Item { actions, .. } if actions.len() == 2
    ));

    let unknown = parse(
        "[mouse]\ninherit_defaults = false\nbindings = []\n[keyboard]\ninherit_defaults = false\nbindings = []\n\
         [[menu.definitions]]\nid = 'root'\ntitle = 'Root'\n\
         [[menu.definitions.entries]]\ntype = 'submenu'\nlabel = 'Missing'\nmenu = 'missing'",
    )
    .expect_err("unknown submenu must fail");
    assert!(matches!(unknown, ConfigError::UnknownMenu { .. }));

    let cycle = parse(
        "[mouse]\ninherit_defaults = false\nbindings = []\n[keyboard]\ninherit_defaults = false\nbindings = []\n\
         [[menu.definitions]]\nid = 'one'\ntitle = 'One'\n\
         [[menu.definitions.entries]]\ntype = 'submenu'\nlabel = 'Two'\nmenu = 'two'\n\
         [[menu.definitions]]\nid = 'two'\ntitle = 'Two'\n\
         [[menu.definitions.entries]]\ntype = 'submenu'\nlabel = 'One'\nmenu = 'one'",
    )
    .expect_err("cyclic submenu graph must fail");
    assert!(matches!(cycle, ConfigError::CyclicMenu(_)));
}

#[test]
fn menu_bounds_and_selectability_are_enforced() {
    assert!(matches!(
        parse("[menu]\nmax_rows = 1"),
        Err(ConfigError::InvalidMenuRows(1))
    ));
    let separators = parse(
        "[mouse]\ninherit_defaults = false\nbindings = []\n[keyboard]\ninherit_defaults = false\nbindings = []\n\
         [[menu.definitions]]\nid = 'root'\ntitle = 'Root'\n\
         [[menu.definitions.entries]]\ntype = 'separator'\nlabel = 'Nothing'",
    )
    .expect_err("separator-only menu must fail");
    assert!(matches!(
        separators,
        ConfigError::MenuHasNoSelectableEntry(_)
    ));

    let dynamic = parse(
        "[mouse]\ninherit_defaults = false\nbindings = []\n[keyboard]\ninherit_defaults = false\nbindings = []\n\
         [[menu.definitions]]\nid = 'client'\ntitle = 'Window'\nsource = 'client'",
    )
    .expect("dynamic menus may omit configured entries");
    assert_eq!(dynamic.menu.definitions[0].source, MenuSource::Client);
    assert!(dynamic.menu.definitions[0].entries.is_empty());

    let dynamic_entries = parse(
        "[mouse]\ninherit_defaults = false\nbindings = []\n[keyboard]\ninherit_defaults = false\nbindings = []\n\
         [[menu.definitions]]\nid = 'windows'\ntitle = 'Windows'\nsource = 'windows'\n\
         [[menu.definitions.entries]]\ntype = 'item'\nlabel = 'Invalid'\n\
         action = { type = 'exit' }",
    )
    .expect_err("dynamic menu entries must come from the selected source");
    assert!(matches!(
        dynamic_entries,
        ConfigError::DynamicMenuHasEntries(menu) if menu == "windows"
    ));
}

#[test]
fn command_menus_reuse_the_strict_menu_and_action_schema() {
    let config = parse(
        "[mouse]\ninherit_defaults = false\nbindings = []\n[keyboard]\ninherit_defaults = false\nbindings = []\n\
         [menu]\ncommand_timeout_ms = 250\n\
         [[menu.definitions]]\nid = 'generated'\ntitle = 'Generated'\n\
         source = 'command'\ncommand = 'menu-generator'\n\
         [[menu.definitions]]\nid = 'session'\ntitle = 'Session'\n\
         [[menu.definitions.entries]]\ntype = 'item'\nlabel = 'Exit'\n\
         action = { type = 'exit' }",
    )
    .expect("valid command-menu definition");
    let entries = config
        .parse_command_menu(
            "generated",
            "[[entries]]\ntype = 'item'\nlabel = '_Terminal'\n\
             actions = [{ type = 'execute', command = 'xterm' }]\n\
             [[entries]]\ntype = 'submenu'\nlabel = '_Session'\nmenu = 'session'", &decode_entries
        )
        .expect("generated entries use the configured menu schema");
    assert_eq!(entries.len(), 2);
    assert!(matches!(
        &entries[0],
        MenuEntry::Item { actions, .. }
            if matches!(actions.as_slice(), [Action::Execute { command, .. }] if command == "xterm")
    ));

    let cycle = config
        .parse_command_menu(
            "generated",
            "[[entries]]\ntype = 'submenu'\nlabel = 'Again'\nmenu = 'generated'", &decode_entries
        )
        .expect_err("generated submenu cycles must fail");
    assert!(matches!(cycle, ConfigError::CyclicMenu(menu) if menu == "generated"));

    let unknown_field = config
        .parse_command_menu(
            "generated",
            "[[entries]]\ntype = 'item'\nlabel = 'Exit'\naction = { type = 'exit' }\nextra = true", &decode_entries
        )
        .expect_err("generated entries remain strict TOML");
    assert!(matches!(unknown_field, ConfigError::Toml(_)));

    let oversized = "x".repeat(MAX_COMMAND_MENU_BYTES.saturating_add(1));
    assert!(matches!(
        config.parse_command_menu("generated", &oversized, &decode_entries),
        Err(ConfigError::CommandMenuOutputTooLarge(size))
            if size == MAX_COMMAND_MENU_BYTES.saturating_add(1)
    ));
}

#[test]
fn command_menu_definition_and_timeout_are_bounded() {
    assert!(matches!(
        parse("[menu]\ncommand_timeout_ms = 49"),
        Err(ConfigError::InvalidMenuCommandTimeout(49))
    ));
    let missing = parse(
        "[mouse]\nbindings = []\n[keyboard]\ninherit_defaults = false\nbindings = []\n\
         [[menu.definitions]]\nid = 'generated'\ntitle = 'Generated'\nsource = 'command'",
    )
    .expect_err("command source requires a command");
    assert!(matches!(
        missing,
        ConfigError::InvalidMenuCommand(menu) if menu == "generated"
    ));
    let static_command = parse(
        "[mouse]\nbindings = []\n[keyboard]\ninherit_defaults = false\nbindings = []\n\
         [[menu.definitions]]\nid = 'root'\ntitle = 'Root'\ncommand = 'false'\n\
         [[menu.definitions.entries]]\ntype = 'item'\nlabel = 'Exit'\n\
         action = { type = 'exit' }",
    )
    .expect_err("static source cannot silently execute a command");
    assert!(matches!(
        static_command,
        ConfigError::UnexpectedMenuCommand(menu) if menu == "root"
    ));
}

#[test]
fn key_chords_are_parsed_and_canonicalized() {
    let chord = "Shift-W-Return".parse::<KeyChord>().expect("valid chord");
    assert_eq!(chord.text(), "S-W-Return");
    assert_eq!(
        chord.modifiers(),
        [KeyboardModifier::Shift, KeyboardModifier::Super]
    );
    let sequence = "Super-x   Ctrl-s"
        .parse::<KeySequence>()
        .expect("valid sequence");
    assert_eq!(sequence.text(), "W-x C-s");
    assert_eq!(sequence.chords().len(), 2);
}

#[test]
fn malformed_and_duplicate_key_chords_are_rejected() {
    assert!("W-W-q".parse::<KeyChord>().is_err());
    let error = parse(
        "[[keyboard.bindings]]\nkey = 'W-q'\naction = { type = 'close' }\n\
         [[keyboard.bindings]]\nkey = 'Super-q'\naction = { type = 'exit' }",
    )
    .expect_err("equivalent duplicate chord must fail");
    assert!(matches!(error, ConfigError::DuplicateKeyBinding(_)));

    let conflict = parse(
        "[[keyboard.bindings]]\nkey = 'W-x'\naction = { type = 'close' }\n\
         [[keyboard.bindings]]\nkey = 'W-x t'\naction = { type = 'exit' }",
    )
    .expect_err("leaf and prefix must conflict");
    assert!(matches!(
        conflict,
        ConfigError::ConflictingKeyBinding { .. }
    ));
}

#[test]
fn configured_keyboard_bindings_layer_over_shared_defaults() {
    let config = parse(
        "[[keyboard.bindings]]\nkey = 'W-Left'\naction = { type = 'workspace_right' }",
    )
    .expect("valid override");
    let bindings = config.keyboard.effective_bindings();
    let action_for = |key: &str| {
        let key = key.parse::<KeySequence>().expect("valid test key");
        bindings
            .iter()
            .find(|binding| binding.key == key)
            .map(|binding| binding.actions.as_slice())
    };
    assert_eq!(
        action_for("W-Left"),
        Some([Action::WorkspaceRight { wrap: None }].as_slice())
    );
    assert_eq!(
        action_for("C-A-Left"),
        Some([Action::WorkspaceLeft { wrap: Some(false) }].as_slice())
    );
    assert_eq!(
        action_for("A-S-Right"),
        Some(
            [Action::MoveToWorkspaceRight {
                follow: true,
                wrap: Some(false),
            }]
            .as_slice()
        )
    );
}

#[test]
fn common_commands_and_shortcuts_share_semantic_actions() {
    let config = parse(
        "[commands]\nterminal = 'kitty'\nscreenshot = 'shot screen'\n\
         window_screenshot = 'shot window'\nsession = 'ssdd'\n\
         [shortcuts]\nterminal = 'W-F5'\nscreenshot = 'W-F6'\n\
         window_screenshot = 'W-F7'",
    )
    .expect("valid common command configuration");
    assert_eq!(config.commands.terminal, "kitty");
    assert_eq!(config.commands.session, "ssdd");
    let bindings = config.effective_key_bindings();
    let action_for = |key: &str| {
        let key = key.parse::<KeySequence>().expect("valid test key");
        bindings
            .iter()
            .find(|binding| binding.key == key)
            .map(|binding| binding.actions.as_slice())
    };
    assert_eq!(
        action_for("W-F5"),
        Some([Action::LaunchTerminal].as_slice())
    );
    assert_eq!(
        action_for("W-F6"),
        Some(
            [Action::Screenshot {
                target: ScreenshotTarget::Screen,
            }]
            .as_slice()
        )
    );
    assert_eq!(
        action_for("W-F7"),
        Some(
            [Action::Screenshot {
                target: ScreenshotTarget::Window,
            }]
            .as_slice()
        )
    );
    assert!(matches!(
        &config.menu.definitions[0].entries[1],
        MenuEntry::Item { actions, .. }
            if actions.as_slice() == [Action::LaunchTerminal]
    ));

    let legacy = parse(
        "[commands]\nterminal = 'kitty'\n\
         [mouse]\ninherit_defaults = false\n\
         [keyboard]\ninherit_defaults = false\n\
         [[menu.definitions]]\nid = 'root'\ntitle = 'Root'\n\
         [[menu.definitions.entries]]\ntype = 'item'\nlabel = '_Terminal'\n\
         action = { type = 'execute', command = 'xterm' }",
    )
    .expect("legacy shipped terminal menu remains compatible");
    assert!(matches!(
        &legacy.menu.definitions[0].entries[0],
        MenuEntry::Item { actions, .. }
            if actions.as_slice() == [Action::LaunchTerminal]
    ));

    assert!(matches!(
        parse("[commands]\nterminal = ''"),
        Err(ConfigError::InvalidConfiguredCommand("terminal"))
    ));
    assert!(matches!(
        parse("[shortcuts]\nterminal = 'Print'"),
        Err(ConfigError::DuplicateKeyBinding(key)) if key == "Print"
    ));
}

#[test]
fn inherited_keyboard_bindings_can_be_disabled_or_replaced_wholesale() {
    let selective = parse("[keyboard]\ndisabled_bindings = ['C-A-Left']\n")
        .expect("valid inherited omission");
    assert!(
        selective
            .keyboard
            .effective_bindings()
            .iter()
            .all(|binding| binding.key.text() != "C-A-Left")
    );

    let replacement = parse(
        "[keyboard]\ninherit_defaults = false\n\n\
         [[keyboard.bindings]]\nkey = 'W-F12'\naction = { type = 'close' }",
    )
    .expect("valid replacement keymap");
    let bindings = replacement.keyboard.effective_bindings();
    assert_eq!(bindings.len(), 1);
    assert_eq!(bindings[0].key.text(), "W-F12");
}

#[test]
fn ordered_keyboard_actions_preserve_legacy_singular_form() {
    let config = parse(
        "[[keyboard.bindings]]\nkey = 'W-x t'\n\
         actions = [{ type = 'next_workspace' }, { type = 'close' }]\n\
         [[keyboard.bindings]]\nkey = 'W-c'\n\
         action = { type = 'close' }",
    )
    .expect("valid plural and legacy actions");
    assert_eq!(config.keyboard.bindings[0].actions.len(), 2);
    assert_eq!(config.keyboard.bindings[1].actions, [Action::Close]);

    for source in [
        "[[keyboard.bindings]]\nkey = 'W-x'",
        "[[keyboard.bindings]]\nkey = 'W-x'\nactions = []",
        "[[keyboard.bindings]]\nkey = 'W-x'\naction = { type = 'close' }\n\
         actions = [{ type = 'exit' }]",
    ] {
        assert!(parse(source).is_err());
    }

    let quit_conflict = parse(
        "[keyboard]\nchain_quit_key = 'C-g'\n\
         [[keyboard.bindings]]\nkey = 'W-x C-g'\naction = { type = 'close' }",
    )
    .expect_err("quit chord cannot also continue a chain");
    assert!(matches!(
        quit_conflict,
        ConfigError::ConflictingChainQuitKey { .. }
    ));
    assert!(matches!(
        parse("[keyboard]\nchain_timeout_ms = 99"),
        Err(ConfigError::InvalidChainTimeout(99))
    ));
}

#[test]
fn polite_close_and_forced_kill_are_distinct_actions() {
    let config = parse(
        "[[keyboard.bindings]]\nkey = 'W-F11'\n\
         action = { type = 'close' }\n\
         [[keyboard.bindings]]\nkey = 'W-F12'\n\
         action = { type = 'kill' }",
    )
    .expect("valid close and kill actions");
    assert_eq!(config.keyboard.bindings[0].actions, [Action::Close]);
    assert_eq!(config.keyboard.bindings[1].actions, [Action::Kill]);
}

#[test]
fn restart_action_supports_self_restart_and_validated_handoff() {
    let config = parse(
        "[[keyboard.bindings]]\nkey = 'W-F9'\n\
         action = { type = 'restart' }\n\
         [[keyboard.bindings]]\nkey = 'W-F10'\n\
         action = { type = 'restart', command = 'openbox --replace' }",
    )
    .expect("valid restart actions");
    assert_eq!(
        config.keyboard.bindings[0].actions,
        [Action::Restart { command: None }]
    );
    assert_eq!(
        config.keyboard.bindings[1].actions,
        [Action::Restart {
            command: Some("openbox --replace".to_owned()),
        }]
    );
    assert!(matches!(
        parse(
            "[[keyboard.bindings]]\nkey = 'W-F9'\n\
             action = { type = 'restart', command = '   ' }"
        ),
        Err(ConfigError::EmptyRestartCommand(_))
    ));
}

#[test]
fn session_logout_defaults_to_confirmation_and_can_be_explicit() {
    let config = parse(
        "[[keyboard.bindings]]\nkey = 'W-F10'\n\
         action = { type = 'session_logout' }\n\
         [[keyboard.bindings]]\nkey = 'W-F11'\n\
         action = { type = 'session_logout', prompt = false }",
    )
    .expect("valid session logout actions");
    assert_eq!(
        config.keyboard.bindings[0].actions,
        [Action::SessionLogout { prompt: true }]
    );
    assert_eq!(
        config.keyboard.bindings[1].actions,
        [Action::SessionLogout { prompt: false }]
    );
}

#[test]
fn local_exit_defaults_to_confirmation_and_can_be_immediate() {
    let config = parse(
        "[[keyboard.bindings]]\nkey = 'W-F10'\n\
         action = { type = 'exit' }\n\
         [[keyboard.bindings]]\nkey = 'W-F11'\n\
         action = { type = 'exit', prompt = false }",
    )
    .expect("valid local exit actions");
    assert_eq!(
        config.keyboard.bindings[0].actions,
        [Action::Exit { prompt: true }]
    );
    assert_eq!(
        config.keyboard.bindings[1].actions,
        [Action::Exit { prompt: false }]
    );
}

#[test]
fn default_root_menu_ends_with_confirmed_local_exit() {
    let config = Config::default();
    let root = config
        .menu
        .definitions
        .iter()
        .find(|definition| definition.id == "root")
        .expect("default root menu");
    assert!(matches!(
        root.entries.as_slice(),
        [.., MenuEntry::Separator { label: None }, MenuEntry::Item { label, actions }]
            if label == "_Exit nobox"
                && actions.as_slice() == [Action::Exit { prompt: true }]
    ));

    let session = config
        .menu
        .definitions
        .iter()
        .find(|definition| definition.id == "session")
        .expect("default session menu");
    assert!(!session.entries.iter().any(|entry| matches!(
        entry,
        MenuEntry::Item { actions, .. }
            if actions.iter().any(|action| matches!(action, Action::Exit { .. }))
    )));
}

#[test]
fn show_desktop_defaults_to_launch_restoration_and_supports_strict_mode() {
    let config = parse(
        "[[keyboard.bindings]]\nkey = 'W-d'\n\
         action = { type = 'toggle_show_desktop' }\n\
         [[keyboard.bindings]]\nkey = 'W-S-d'\n\
         action = { type = 'toggle_show_desktop', strict = true }",
    )
    .expect("valid show-desktop actions");
    assert_eq!(
        config.keyboard.bindings[0].actions,
        [Action::ToggleShowDesktop { strict: false }]
    );
    assert_eq!(
        config.keyboard.bindings[1].actions,
        [Action::ToggleShowDesktop { strict: true }]
    );
}

#[test]
fn execute_supports_confirmation_and_portable_launch_metadata() {
    let config = parse(
        "[[keyboard.bindings]]\nkey = 'W-Return'\n\
         action = { type = 'execute', command = 'terminal --cwd $pid', prompt = 'Open terminal here?', startup_notify = { name = 'Terminal', icon = 'utilities-terminal', wm_class = 'Terminal' } }",
    )
    .expect("valid enriched execute action");
    assert_eq!(
        config.keyboard.bindings[0].actions,
        [Action::Execute {
            command: "terminal --cwd $pid".to_owned(),
            prompt: Some("Open terminal here?".to_owned()),
            startup_notify: Some(StartupNotification {
                name: Some("Terminal".to_owned()),
                icon: Some("utilities-terminal".to_owned()),
                wm_class: Some("Terminal".to_owned()),
            }),
        }]
    );

    for source in [
        "[[keyboard.bindings]]\nkey = 'W-Return'\naction = { type = 'execute', command = '   ' }",
        "[[keyboard.bindings]]\nkey = 'W-Return'\naction = { type = 'execute', command = 'xterm', prompt = '' }",
        "[[keyboard.bindings]]\nkey = 'W-Return'\naction = { type = 'execute', command = 'xterm', startup_notify = { wm_class = '' } }",
    ] {
        assert!(parse(source).is_err());
    }
}

#[test]
fn debug_action_requires_a_bounded_visible_message() {
    let config = parse(
        "[[keyboard.bindings]]\nkey = 'W-F10'\n\
         action = { type = 'debug', message = 'workspace switched' }",
    )
    .expect("valid debug action");
    assert_eq!(
        config.keyboard.bindings[0].actions,
        [Action::Debug {
            message: "workspace switched".to_owned(),
        }]
    );
    for message in [String::new(), "x".repeat(1_025)] {
        let source = format!(
            "[[keyboard.bindings]]\nkey = 'W-F10'\n\
             action = {{ type = 'debug', message = {message:?} }}"
        );
        assert!(matches!(
            parse(&source),
            Err(ConfigError::InvalidDebugMessage(_))
        ));
    }
}

#[test]
fn conditional_action_trees_are_typed_and_bounded() {
    let config = parse(
        "[workspaces]\nnames = ['one', 'two']\n\
         [[keyboard.bindings]]\nkey = 'W-F8'\n\
         action = { type = 'if', query = [{ class = 'Nobox*', shaded = true, workspace = 'current' }, { target = 'focused', active_workspace = 2 }], then = [{ type = 'raise' }, { type = 'stop' }], else = [{ type = 'lower' }] }\n\
         [[keyboard.bindings]]\nkey = 'W-F9'\n\
         action = { type = 'for_each', query = [{ kind = 'normal' }], then = [{ type = 'focus' }], none = [{ type = 'execute', command = 'notify-send none' }] }",
    )
    .expect("valid conditional actions");
    assert!(matches!(
        &config.keyboard.bindings[0].actions[0],
        Action::If {
            queries,
            then_actions,
            else_actions,
        } if queries.len() == 2
            && then_actions == &[Action::Raise, Action::Stop]
            && else_actions == &[Action::Lower]
    ));
    assert!(matches!(
        &config.keyboard.bindings[1].actions[0],
        Action::ForEach {
            queries,
            then_actions,
            none,
            ..
        } if queries.len() == 1
            && then_actions == &[Action::Focus { here: false }]
            && none.len() == 1
    ));

    assert!(matches!(
        parse(
            "[[keyboard.bindings]]\nkey = 'W-F8'\n\
             action = { type = 'if', query = [], then = [] }"
        ),
        Err(ConfigError::EmptyActionQueries(_))
    ));
    assert!(matches!(
        parse(
            "[[keyboard.bindings]]\nkey = 'W-F8'\n\
             action = { type = 'if', query = [{ class = '' }], then = [] }"
        ),
        Err(ConfigError::EmptyActionQueryPattern { .. })
    ));
    parse(
        "[[keyboard.bindings]]\nkey = 'W-F8'\n\
         action = { type = 'if', query = [{}], then = [{ type = 'move' }] }",
    )
    .expect("nested keyboard move enters interactive keyboard mode");

    let mut nested = Action::Raise;
    for _ in 0..10 {
        nested = Action::If {
            queries: vec![ActionQuery::default()],
            then_actions: vec![nested],
            else_actions: Vec::new(),
        };
    }
    assert!(matches!(
        check_action(nested, "nested"),
        Err(ConfigError::ActionNestingTooDeep { .. })
    ));
    let oversized = Action::If {
        queries: vec![ActionQuery::default()],
        then_actions: vec![Action::Raise; 129],
        else_actions: Vec::new(),
    };
    assert!(matches!(
        check_action(oversized, "oversized"),
        Err(ConfigError::ActionTreeTooLarge(_))
    ));
}

#[test]
fn action_queries_match_complete_protocol_neutral_facts() {
    let identity = ApplicationIdentity {
        name: "terminal",
        class: "NoboxTerm",
        group_name: "terminal-group",
        group_class: "NoboxTerm",
        role: "document",
        title: "Editor — notes",
        kind: ApplicationKind::Normal,
    };
    let context = ActionQueryContext {
        identity,
        workspace: Some(1),
        active_workspace: 1,
        last_workspace: 0,
        output: 2,
        shaded: false,
        maximized_horizontal: true,
        maximized_vertical: true,
        minimized: false,
        fullscreen: false,
        focused: true,
        focusable: true,
        urgent: true,
        decorated: true,
    };
    let query = ActionQuery {
        maximized: Some(true),
        focused: Some(true),
        urgent: Some(true),
        decorated: Some(true),
        sticky: Some(false),
        workspace: Some(ActionQueryWorkspace::Relative(
            ActionQueryWorkspaceRelation::Current,
        )),
        active_workspace: Positive::new(2),
        output: Positive::new(2),
        class: Some("nobox*".to_owned()),
        title: Some("*notes".to_owned()),
        kind: Some(ApplicationKind::Normal),
        ..ActionQuery::default()
    };
    assert!(query.matches(Some(context), 1));
    assert!(!query.matches(
        Some(ActionQueryContext {
            urgent: false,
            ..context
        }),
        1
    ));
    assert!(!query.matches(Some(context), 0));

    let active_only = ActionQuery {
        active_workspace: Positive::new(2),
        ..ActionQuery::default()
    };
    assert!(active_only.matches(None, 1));
    assert!(!ActionQuery::default().matches(None, 1));
}

#[test]
fn client_state_actions_are_typed() {
    let config = parse(
        "[[keyboard.bindings]]\nkey = 'A-F11'\n\
         action = { type = 'toggle_fullscreen' }\n\
         [[keyboard.bindings]]\nkey = 'A-F12'\n\
         action = { type = 'toggle_always_on_top' }\n\
         [[keyboard.bindings]]\nkey = 'A-S-F12'\n\
         action = { type = 'toggle_always_on_bottom' }\n\
         [[keyboard.bindings]]\nkey = 'A-F10'\n\
         action = { type = 'toggle_decorations' }\n\
         [[keyboard.bindings]]\nkey = 'A-F8'\n\
         action = { type = 'toggle_maximize_horizontal' }\n\
         [[keyboard.bindings]]\nkey = 'A-F9'\n\
         action = { type = 'toggle_maximize_vertical' }\n\
         [[keyboard.bindings]]\nkey = 'A-F5'\n\
         action = { type = 'raise_lower' }\n\
         [[keyboard.bindings]]\nkey = 'A-F6'\n\
         action = { type = 'shade_lower' }\n\
         [[keyboard.bindings]]\nkey = 'A-F7'\n\
         action = { type = 'unshade_raise' }",
    )
    .expect("valid typed client-state actions");
    assert_eq!(
        config
            .keyboard
            .bindings
            .iter()
            .map(|binding| binding.actions.as_slice())
            .collect::<Vec<_>>(),
        [
            [Action::ToggleFullscreen].as_slice(),
            [Action::ToggleAlwaysOnTop].as_slice(),
            [Action::ToggleAlwaysOnBottom].as_slice(),
            [Action::ToggleDecorations].as_slice(),
            [Action::ToggleMaximizeHorizontal].as_slice(),
            [Action::ToggleMaximizeVertical].as_slice(),
            [Action::RaiseLower].as_slice(),
            [Action::ShadeLower].as_slice(),
            [Action::UnshadeRaise].as_slice(),
        ]
    );
}

#[test]
fn explicit_client_state_actions_are_typed() {
    let config = parse(
        "[[keyboard.bindings]]\nkey = 'W-F1'\n\
         action = { type = 'maximize' }\n\
         [[keyboard.bindings]]\nkey = 'W-F2'\n\
         action = { type = 'unmaximize', direction = 'horz' }\n\
         [[keyboard.bindings]]\nkey = 'W-F3'\n\
         action = { type = 'maximize', direction = 'vert' }\n\
         [[keyboard.bindings]]\nkey = 'W-F4'\n\
         action = { type = 'send_to_layer', layer = 'top' }\n\
         [[keyboard.bindings]]\nkey = 'W-F5'\n\
         action = { type = 'decorate' }\n\
         [[keyboard.bindings]]\nkey = 'W-F6'\n\
         action = { type = 'undecorate' }\n\
         [[keyboard.bindings]]\nkey = 'W-F7'\n\
         action = { type = 'shade' }\n\
         [[keyboard.bindings]]\nkey = 'W-F8'\n\
         action = { type = 'unshade' }",
    )
    .expect("valid explicit client-state actions");
    assert_eq!(
        config
            .keyboard
            .bindings
            .iter()
            .map(|binding| binding.actions.as_slice())
            .collect::<Vec<_>>(),
        [
            [Action::Maximize {
                direction: MaximizeDirection::Both,
            }]
            .as_slice(),
            [Action::Unmaximize {
                direction: MaximizeDirection::Horizontal,
            }]
            .as_slice(),
            [Action::Maximize {
                direction: MaximizeDirection::Vertical,
            }]
            .as_slice(),
            [Action::SendToLayer {
                layer: LayerTarget::Above,
            }]
            .as_slice(),
            [Action::Decorate].as_slice(),
            [Action::Undecorate].as_slice(),
            [Action::Shade].as_slice(),
            [Action::Unshade].as_slice(),
        ]
    );
}

#[test]
fn focus_order_actions_are_typed() {
    let config = parse(
        "[[keyboard.bindings]]\nkey = 'W-F4'\n\
         action = { type = 'focus' }\n\
         [[keyboard.bindings]]\nkey = 'W-F5'\n\
         action = { type = 'focus_to_bottom' }\n\
         [[keyboard.bindings]]\nkey = 'W-F6'\n\
         action = { type = 'unfocus' }\n\
         [[keyboard.bindings]]\nkey = 'W-F7'\n\
         action = { type = 'focus_fallback' }",
    )
    .expect("valid focus-order actions");
    assert_eq!(
        config
            .keyboard
            .bindings
            .iter()
            .map(|binding| binding.actions.as_slice())
            .collect::<Vec<_>>(),
        [
            [Action::Focus { here: false }].as_slice(),
            [Action::FocusToBottom].as_slice(),
            [Action::Unfocus].as_slice(),
            [Action::FocusFallback].as_slice(),
        ]
    );

    let here = parse(
        "[[keyboard.bindings]]\nkey = 'W-F4'\n\
         action = { type = 'focus', here = true }",
    )
    .expect("valid focus-here action");
    assert_eq!(
        here.keyboard.bindings[0].actions,
        [Action::Focus { here: true }]
    );
}

#[test]
fn directional_focus_actions_parse_all_spatial_directions() {
    let directions = [
        ("left", WindowDirection::Left),
        ("east", WindowDirection::Right),
        ("north", WindowDirection::Up),
        ("down", WindowDirection::Down),
        ("northwest", WindowDirection::UpLeft),
        ("up_right", WindowDirection::UpRight),
        ("south_west", WindowDirection::DownLeft),
        ("southeast", WindowDirection::DownRight),
    ];
    for (configured, expected) in directions {
        let source = format!(
            "[[keyboard.bindings]]\nkey = 'W-F5'\n\
             action = {{ type = 'focus_direction', direction = '{configured}' }}"
        );
        let config = parse(&source).expect("valid directional focus action");
        assert_eq!(
            config.keyboard.bindings[0].actions,
            [Action::FocusDirection {
                direction: expected,
            }]
        );
    }
    let aliased = parse(
        "[[keyboard.bindings]]\nkey = 'W-F5'\n\
         action = { type = 'directional_target_window', direction = 'right' }",
    )
    .expect("Openbox-style action alias");
    assert_eq!(
        aliased.keyboard.bindings[0].actions,
        [Action::FocusDirection {
            direction: WindowDirection::Right,
        }]
    );
    let cycle = parse(
        "[[keyboard.bindings]]\nkey = 'A-h'\n\
         action = { type = 'directional_cycle_windows', direction = 'northwest' }",
    )
    .expect("Openbox-style directional cycle alias");
    assert_eq!(
        cycle.keyboard.bindings[0].actions,
        [Action::CycleDirection {
            direction: WindowDirection::UpLeft,
        }]
    );
    assert!(
        parse(
            "[[keyboard.bindings]]\nkey = 'W-F5'\n\
             action = { type = 'focus_direction', direction = 'somewhere' }"
        )
        .is_err()
    );
}

#[test]
fn relative_geometry_actions_parse_pixels_percentages_and_fractions() {
    let config = parse(
        "[[keyboard.bindings]]\nkey = 'W-F5'\n\
         action = { type = 'move_relative', x = 10, y = '-25%' }\n\
         [[keyboard.bindings]]\nkey = 'W-F6'\n\
         action = { type = 'resize_relative', left = '1/4', right = -5, bottom = '10%' }\n\
         [[keyboard.bindings]]\nkey = 'W-F7'\n\
         action = { type = 'move_to_edge', direction = 'west' }",
    )
    .expect("valid relative geometry actions");
    assert_eq!(
        config.keyboard.bindings[0].actions,
        [Action::MoveRelative {
            x: RelativeAmount::Pixels(10),
            y: RelativeAmount::Fraction {
                numerator: -25,
                denominator: Positive::new(100).unwrap(),
            },
        }]
    );
    assert_eq!(
        config.keyboard.bindings[2].actions,
        [Action::MoveToEdge {
            direction: EdgeDirection::Left,
        }]
    );
    assert_eq!(
        config.keyboard.bindings[1].actions,
        [Action::ResizeRelative {
            left: RelativeAmount::Fraction {
                numerator: 1,
                denominator: Positive::new(4).unwrap(),
            },
            right: RelativeAmount::Pixels(-5),
            top: RelativeAmount::Pixels(0),
            bottom: RelativeAmount::Fraction {
                numerator: 10,
                denominator: Positive::new(100).unwrap(),
            },
        }]
    );
    assert_eq!(RelativeAmount::Pixels(-12).resolve(800), -12);
    assert_eq!("-25%".parse::<RelativeAmount>().unwrap().resolve(600), -150);
    assert_eq!("1/4".parse::<RelativeAmount>().unwrap().resolve(801), 200);
}

#[test]
fn malformed_relative_amounts_are_rejected() {
    for value in ["", " 10%", "10% ", "x%", "1/0", "1/-2", "1/2/3"] {
        assert!(
            value.parse::<RelativeAmount>().is_err(),
            "accepted {value:?}"
        );
    }
    assert!(
        parse(
            "[[keyboard.bindings]]\nkey = 'W-F5'\n\
             action = { type = 'move_relative', x = '1/0' }"
        )
        .is_err()
    );
}

#[test]
fn directional_resize_actions_are_typed() {
    let config = parse(
        "[[keyboard.bindings]]\nkey = 'W-F8'\n\
         action = { type = 'grow_to_edge', direction = 'south' }\n\
         [[keyboard.bindings]]\nkey = 'W-F9'\n\
         action = { type = 'grow_to_fill' }\n\
         [[keyboard.bindings]]\nkey = 'W-F10'\n\
         action = { type = 'shrink_to_edge', direction = 'left' }",
    )
    .expect("valid directional resize actions");
    assert_eq!(
        config
            .keyboard
            .bindings
            .iter()
            .map(|binding| binding.actions.as_slice())
            .collect::<Vec<_>>(),
        [
            [Action::GrowToEdge {
                direction: EdgeDirection::Down,
            }]
            .as_slice(),
            [Action::GrowToFill].as_slice(),
            [Action::ShrinkToEdge {
                direction: EdgeDirection::Left,
            }]
            .as_slice(),
        ]
    );
}

#[test]
fn absolute_geometry_actions_parse_typed_coordinates_sizes_and_outputs() {
    let config = parse(
        "[[keyboard.bindings]]\nkey = 'W-F3'\n\
         action = { type = 'move_resize_to', x = 'center', y = '-10%', width = '50%', height = 300, height_basis = 'content', output = 'next' }\n\
         [[keyboard.bindings]]\nkey = 'W-F4'\n\
         action = { type = 'move_resize_to', x = -25, output = 2 }\n\
         [[keyboard.bindings]]\nkey = 'W-F5'\n\
         action = { type = 'move_to_center' }",
    )
    .expect("valid absolute geometry actions");
    assert_eq!(
        config.keyboard.bindings[0].actions,
        [Action::MoveResizeTo {
            x: Some(AxisPosition::Center),
            y: Some(AxisPosition::End(RelativeAmount::Fraction {
                numerator: 10,
                denominator: Positive::new(100).unwrap(),
            })),
            width: Some(
                PositiveRelativeAmount::try_from(RelativeAmount::Fraction {
                    numerator: 50,
                    denominator: Positive::new(100).unwrap(),
                })
                .unwrap(),
            ),
            height: Some(
                PositiveRelativeAmount::try_from(RelativeAmount::Pixels(300)).unwrap(),
            ),
            width_basis: SizeBasis::Outer,
            height_basis: SizeBasis::Content,
            output: OutputTarget::Next,
        }]
    );
    assert_eq!(
        config.keyboard.bindings[1].actions,
        [Action::MoveResizeTo {
            x: Some(AxisPosition::End(RelativeAmount::Pixels(25))),
            y: None,
            width: None,
            height: None,
            width_basis: SizeBasis::Outer,
            height_basis: SizeBasis::Outer,
            output: OutputTarget::Index(Positive::new(2).unwrap()),
        }]
    );
    assert_eq!(
        config.keyboard.bindings[2].actions,
        [Action::MoveToCenter {
            output: OutputTarget::Current,
        }]
    );
}

#[test]
fn absolute_geometry_actions_reject_invalid_dimensions_and_targets() {
    for source in [
        "[[keyboard.bindings]]\nkey = 'W-F3'\naction = { type = 'move_resize_to', width = 0 }",
        "[[keyboard.bindings]]\nkey = 'W-F3'\naction = { type = 'move_resize_to', height = '-10%' }",
        "[[keyboard.bindings]]\nkey = 'W-F3'\naction = { type = 'move_resize_to', x = '--10' }",
        "[[keyboard.bindings]]\nkey = 'W-F3'\naction = { type = 'move_resize_to', output = 0 }",
        "[[keyboard.bindings]]\nkey = 'W-F3'\naction = { type = 'move_to_center', output = 'unknown' }",
    ] {
        assert!(parse(source).is_err(), "accepted {source:?}");
    }
    let tiny =
        PositiveRelativeAmount::try_from("1/100".parse::<RelativeAmount>().unwrap()).unwrap();
    assert_eq!(tiny.resolve(10), 1);
}

#[test]
fn workspace_names_define_the_valid_action_range() {
    let valid = parse(
        "[workspaces]\nnames = ['main', 'chat']\n\
         [[keyboard.bindings]]\nkey = 'W-2'\n\
         action = { type = 'switch_workspace', workspace = 2 }\n\
         [[keyboard.bindings]]\nkey = 'W-S-1'\n\
         action = { type = 'move_to_workspace', workspace = 1, follow = true }",
    )
    .expect("valid workspace bindings");
    assert_eq!(valid.workspaces.names, ["main", "chat"]);

    let error = parse(
        "[workspaces]\nnames = ['only']\n\
         [[keyboard.bindings]]\nkey = 'W-2'\n\
         action = { type = 'switch_workspace', workspace = 2 }",
    )
    .expect_err("out-of-range workspace must fail");
    assert!(matches!(
        error,
        ConfigError::InvalidWorkspaceBinding { workspace: 2, .. }
    ));
}

#[test]
fn runtime_workspace_actions_are_typed() {
    let config = parse(
        "[[keyboard.bindings]]\nkey = 'W-F1'\n\
         action = { type = 'last_workspace' }\n\
         [[keyboard.bindings]]\nkey = 'W-F2'\n\
         action = { type = 'move_to_last_workspace' }\n\
         [[keyboard.bindings]]\nkey = 'W-F3'\n\
         action = { type = 'add_workspace' }\n\
         [[keyboard.bindings]]\nkey = 'W-F4'\n\
         action = { type = 'add_workspace', at = 'current' }\n\
         [[keyboard.bindings]]\nkey = 'W-F5'\n\
         action = { type = 'remove_workspace' }\n\
         [[keyboard.bindings]]\nkey = 'W-F6'\n\
         action = { type = 'remove_workspace', at = 'current' }",
    )
    .expect("valid runtime workspace actions");
    assert_eq!(
        config
            .keyboard
            .bindings
            .iter()
            .map(|binding| binding.actions.as_slice())
            .collect::<Vec<_>>(),
        [
            [Action::LastWorkspace].as_slice(),
            [Action::MoveToLastWorkspace { follow: true }].as_slice(),
            [Action::AddWorkspace {
                at: WorkspacePlacement::Last,
            }]
            .as_slice(),
            [Action::AddWorkspace {
                at: WorkspacePlacement::Current,
            }]
            .as_slice(),
            [Action::RemoveWorkspace {
                at: WorkspacePlacement::Last,
            }]
            .as_slice(),
            [Action::RemoveWorkspace {
                at: WorkspacePlacement::Current,
            }]
            .as_slice(),
        ]
    );
}

#[test]
fn workspace_names_must_be_nonempty_and_ewmh_safe() {
    for source in [
        "[workspaces]\nnames = []",
        "[workspaces]\nnames = ['main', '  ']",
        "[workspaces]\nnames = [\"main\\u0000hidden\"]",
    ] {
        assert!(parse(source).is_err());
    }
}

#[test]
fn workspace_grid_rejects_more_columns_than_workspaces() {
    let config = parse(
        "[workspaces]\nnames = ['code', 'web', 'chat', 'misc']\ncolumns = 2\nwrap = false\ninitial = 3",
    )
    .expect("valid two-column grid");
    assert_eq!(config.workspaces.columns, 2);
    assert!(!config.workspaces.wrap);
    assert_eq!(config.workspaces.initial, 3);

    let error = parse("[workspaces]\nnames = ['one', 'two']\ncolumns = 3")
        .expect_err("oversized grid must fail");
    assert!(matches!(
        error,
        ConfigError::TooManyWorkspaceColumns {
            columns: 3,
            count: 2
        }
    ));

    let initial = parse("[workspaces]\nnames = ['one', 'two']\ninitial = 3")
        .expect_err("missing initial workspace must fail");
    assert!(matches!(
        initial,
        ConfigError::InvalidInitialWorkspace {
            workspace: 3,
            count: 2
        }
    ));
}

#[test]
fn configured_screen_margins_are_typed_and_bounded() {
    let config = parse("[margins]\ntop = 10\nright = 20\nbottom = 30\nleft = 40")
        .expect("valid margins");
    assert_eq!(
        config.margins,
        MarginConfig {
            top: 10,
            right: 20,
            bottom: 30,
            left: 40,
        }
    );
    let error = parse("[margins]\nleft = 16385").expect_err("hostile margin must fail");
    assert!(matches!(
        error,
        ConfigError::MarginTooLarge {
            edge: "left",
            pixels: 16_385
        }
    ));
}

#[test]
fn output_rules_are_typed_exact_and_lookup_by_connector() {
    let config = parse(
        "[[outputs.entries]]\n\
         name = 'eDP-1'\nenabled = true\nmode = '1920x1080@60'\n\
         position = { x = -1920, y = 0 }\ntransform = 'normal'\nscale = 1.25\nprimary = true\n\
         [[outputs.entries]]\nname = 'DP-1'\nenabled = false\ntransform = 'rotate90'\nscale = 1",
    )
    .expect("valid output rules");
    let internal = config.outputs.entry("eDP-1").expect("internal output");
    assert_eq!(
        internal.mode,
        Some(OutputModeConfig {
            width: 1920,
            height: 1080,
            refresh_millihz: Some(60_000),
        })
    );
    assert_eq!(internal.position, Some(OutputPosition { x: -1920, y: 0 }));
    assert_eq!(internal.scale.units(), 150);
    assert_eq!(f64::from(internal.scale.units()) / 120.0, 1.25);
    assert!(internal.primary);
    assert_eq!(
        config.outputs.entry("DP-1").map(|output| output.transform),
        Some(OutputTransform::Rotate90)
    );
    assert!(config.outputs.entry("HDMI-A-1").is_none());
}

#[test]
fn output_rules_reject_ambiguous_or_hostile_topologies() {
    for source in [
        "[[outputs.entries]]\nname = '../card0'",
        "[[outputs.entries]]\nname = 'DP-1'\n[[outputs.entries]]\nname = 'DP-1'",
        "[[outputs.entries]]\nname = 'DP-1'\nprimary = true\n[[outputs.entries]]\nname = 'DP-2'\nprimary = true",
        "[[outputs.entries]]\nname = 'DP-1'\nenabled = false\nprimary = true",
        "[[outputs.entries]]\nname = 'DP-1'\nposition = { x = 1000001, y = 0 }",
        "[[outputs.entries]]\nname = 'DP-1'\nscale = 1.234",
        "[[outputs.entries]]\nname = 'DP-1'\nmode = '0x1080@60'",
        "[[outputs.entries]]\nname = 'DP-1'\nmode = '1920x1080@0'",
    ] {
        assert!(parse(source).is_err(), "accepted {source:?}");
    }
}

#[test]
fn application_rules_match_wildcards_and_merge_in_order() {
    let config = parse(
        "[[applications]]\n\
         match = { class = 'Fire*', kind = 'normal' }\n\
         workspace = 2\nlayer = 'below'\nfocus = false\n\
         [[applications]]\n\
         match = { name = 'Navigator', title = '*Private?' }\n\
         layer = 'above'\ndecorated = false",
    )
    .expect("valid application rules");
    let settings = config.application_settings(ApplicationIdentity {
        name: "navigator",
        class: "Firefox",
        group_name: "navigator",
        group_class: "Firefox",
        role: "browser",
        title: "Private1",
        kind: ApplicationKind::Normal,
    });
    assert_eq!(
        settings.workspace,
        Some(ApplicationWorkspace::Index(Positive::new(2).unwrap()))
    );
    assert_eq!(settings.layer, Some(ApplicationLayer::Above));
    assert_eq!(settings.decorated, Some(false));
    assert_eq!(settings.focus, Some(false));
}

#[test]
fn application_rules_reject_empty_matchers_patterns_and_workspaces() {
    let empty = parse("[[applications]]\nmatch = {}\nfocus = false")
        .expect_err("empty matcher must fail");
    assert!(matches!(empty, ConfigError::EmptyApplicationMatcher(1)));

    let pattern = parse("[[applications]]\nmatch = { class = '' }")
        .expect_err("empty pattern must fail");
    assert!(matches!(pattern, ConfigError::EmptyApplicationPattern(1)));

    let workspace = parse(
        "[workspaces]\nnames = ['one']\n\
         [[applications]]\nmatch = { class = '*' }\nworkspace = 2",
    )
    .expect_err("invalid rule workspace must fail");
    assert!(matches!(
        workspace,
        ConfigError::InvalidApplicationWorkspace { workspace: 2, .. }
    ));

    let size = parse("[[applications]]\nmatch = { class = '*' }\nsize = {}")
        .expect_err("empty application size must fail");
    assert!(matches!(size, ConfigError::EmptyApplicationSize(1)));
}

#[test]
fn application_rules_cover_group_state_and_geometry_policy() {
    let config = parse(
        "[[applications]]\n\
         match = { group_name = 'suite-*', group_class = 'NoboxGroup' }\n\
         workspace = 'all'\nminimized = true\nshaded = false\n\
         skip_pager = true\nskip_taskbar = true\nfullscreen = false\n\
         maximized = 'vertical'\n\
         position = { x = 'center', y = -20, output = 'pointer', force = true }\n\
         size = { width = '75%', height = 480, width_basis = 'content' }",
    )
    .expect("complete application policy");
    let settings = config.application_settings(ApplicationIdentity {
        name: "dialog",
        class: "Client",
        group_name: "suite-editor",
        group_class: "noboxgroup",
        role: "document",
        title: "Notes",
        kind: ApplicationKind::Dialog,
    });

    assert_eq!(settings.workspace, Some(ApplicationWorkspace::All));
    assert_eq!(settings.minimized, Some(true));
    assert_eq!(settings.shaded, Some(false));
    assert_eq!(settings.skip_pager, Some(true));
    assert_eq!(settings.skip_taskbar, Some(true));
    assert_eq!(settings.fullscreen, Some(false));
    assert_eq!(settings.maximized, Some(ApplicationMaximized::Vertical));
    let position = settings.position.expect("position");
    assert_eq!(position.x, Some(AxisPosition::Center));
    assert_eq!(
        position.y,
        Some(AxisPosition::End(RelativeAmount::Pixels(20)))
    );
    assert_eq!(position.output, OutputTarget::Pointer);
    assert!(position.force);
    let size = settings.size.expect("size");
    assert_eq!(size.width.expect("width").resolve(800), 600);
    assert_eq!(size.height.expect("height").resolve(800), 480);
    assert_eq!(size.width_basis, SizeBasis::Content);
    assert_eq!(size.height_basis, SizeBasis::Outer);
}

#[test]
fn wayland_input_method_is_an_absolute_bounded_argv() {
    assert!(!Config::default().wayland.xwayland);
    assert!(
        parse("[wayland]\nxwayland = true")
            .expect("XWayland runtime opt-in")
            .wayland
            .xwayland
    );
    let config = parse("[wayland]\ninput_method = ['/usr/bin/fcitx5', '--replace']")
        .expect("absolute input method argv");
    assert_eq!(
        config.wayland.input_method,
        ["/usr/bin/fcitx5", "--replace"]
    );

    assert!(matches!(
        parse("[wayland]\ninput_method = ['fcitx5']"),
        Err(ConfigError::InvalidInputMethodExecutable)
    ));
    let arguments = std::iter::repeat_n("'x'", 33).collect::<Vec<_>>().join(",");
    assert!(matches!(
        parse(&format!("[wayland]\ninput_method = [{arguments}]")),
        Err(ConfigError::TooManyInputMethodArguments(33))
    ));
    let oversized = "x".repeat(4_097);
    assert!(matches!(
        parse(&format!(
            "[wayland]\ninput_method = ['/usr/bin/fcitx5', '{oversized}']"
        )),
        Err(ConfigError::InvalidInputMethodArguments)
    ));
}

#[test]
fn the_agent_seat_is_absent_unless_configured() {
    let config = Config::default();
    assert!(!config.agent.enabled);
    assert_eq!(config.agent.policy, AgentPolicy::Deny);
    assert!(config.agent.grants.is_empty());
    assert_eq!(config.agent.launch.policy, LaunchPolicy::Deny);
    assert!(!config.agent.launch.user_entries);
    assert!(
        config
            .agent
            .capabilities_for(Some("/usr/bin/anything"), 1000)
            .is_empty()
    );
}

#[test]
fn the_human_wins_by_default_and_the_kill_chord_exists() {
    let config = AgentConfig::default();
    assert_eq!(config.suppression_ms, 750);
    assert_eq!(config.suppression(), 750);
    assert_eq!(config.kill_chord.symbol(), "Escape");
    assert_eq!(config.kill_chord.modifiers().len(), 2);
}

#[test]
fn an_unbounded_suppression_window_is_refused() {
    let error = parse("[agent]\nsuppression_ms = 120000\n").expect_err("invalid");
    assert!(
        matches!(error, ConfigError::InvalidSuppressionWindow(120_000)),
        "{error:?}"
    );
    let config =
        parse("[agent]\nsuppression_ms = 0\nkill_chord = \"W-Escape\"\n").expect("valid");
    assert_eq!(config.agent.suppression_ms, 0);
    assert_eq!(config.agent.kill_chord.symbol(), "Escape");
}

#[test]
fn a_grant_expands_bundles_and_atoms_together() {
    let config = parse(
        r#"
        [agent]
        enabled = true

        [[agent.grants]]
        label = "example harness"
        executable = "/usr/bin/nobox-agent"
        capabilities = ["observe", "manage.activate"]
        "#,
    )
    .expect("parses");
    config.validate().expect("valid");
    let held = config
        .agent
        .capabilities_for(Some("/usr/bin/nobox-agent"), 1000);
    assert!(held.holds(Capability::ObserveStructure));
    assert!(held.holds(Capability::ObserveTitles));
    assert!(!held.holds(Capability::ObserveAccessibility));
    assert!(held.holds(Capability::ManageActivate));
    assert!(!held.holds(Capability::ManageGeometry));
    assert!(!held.holds(Capability::InputPointer));
}

#[test]
fn accessibility_is_an_explicit_separate_grant() {
    let config = parse(
        r#"
        [[agent.grants]]
        executable = "/usr/bin/nobox-agent"
        capabilities = ["accessibility"]
        "#,
    )
    .expect("parses");
    let held = config
        .agent
        .capabilities_for(Some("/usr/bin/nobox-agent"), 1000);
    assert!(held.holds(Capability::ObserveAccessibility));
    assert!(!held.holds(Capability::ObserveStructure));
    assert!(!held.holds(Capability::ObserveTitles));
}

#[test]
fn a_grant_binds_to_the_executable_not_to_a_declared_name() {
    let config = parse(
        r#"
        [agent]
        enabled = true

        [[agent.grants]]
        label = "trusted"
        executable = "/usr/bin/nobox-agent"
        uid = 1000
        capabilities = ["observe"]
        "#,
    )
    .expect("parses");
    let grant = &config.agent.grants[0];
    assert!(grant.matches_peer(Some("/usr/bin/nobox-agent"), 1000));
    assert!(!grant.matches_peer(Some("/tmp/impostor"), 1000));
    assert!(!grant.matches_peer(Some("/usr/bin/nobox-agent"), 1001));
    assert!(!grant.matches_peer(None, 1000));
}

#[test]
fn a_grant_built_the_way_consent_builds_one_is_matched_next_time() {
    // "Allow and remember" appends a grant to the running configuration in
    // exactly this shape. If it were not matched by grant_for, remembering
    // would be indistinguishable from allowing once and the person would
    // be asked again on the very next connection.
    let mut config = parse("[agent]\nenabled = true\npolicy = \"ask\"\n").expect("parses");
    assert!(
        config
            .agent
            .grant_for(Some("/usr/bin/nobox-agent"), 1000)
            .is_none()
    );

    let atoms = CapabilitySet::of(&[Capability::ObserveStructure, Capability::ObserveTitles]);
    config.agent.grants.push(AgentGrant {
        label: "nobox-agent".to_owned(),
        executable: "/usr/bin/nobox-agent".to_owned(),
        uid: Some(1000),
        capabilities: atoms
            .atoms()
            .iter()
            .map(|atom| GrantedCapability::Atom("observe".to_owned(), *atom))
            .collect(),
        scope: None,
    });

    let stored = config
        .agent
        .grant_for(Some("/usr/bin/nobox-agent"), 1000)
        .expect("the remembered grant is found");
    assert_eq!(stored.capabilities(), atoms);
    // Still bound to the executable, not to anything the peer declares.
    assert!(
        config
            .agent
            .grant_for(Some("/tmp/impostor"), 1000)
            .is_none()
    );
}

#[test]
fn a_declared_label_is_not_a_matching_key() {
    let error = parse(
        r#"
        [[agent.grants]]
        harness = "trusted"
        capabilities = ["observe"]
        "#,
    )
    .expect_err("rejected");
    assert!(matches!(error, ConfigError::Toml(_)), "{error:?}");
}

#[test]
fn unknown_capability_names_are_rejected() {
    let error = parse(
        r#"
        [[agent.grants]]
        executable = "/usr/bin/nobox-agent"
        capabilities = ["observe.everything"]
        "#,
    )
    .expect_err("rejected");
    assert!(matches!(error, ConfigError::Toml(_)), "{error:?}");
}

#[test]
fn unknown_agent_keys_are_rejected() {
    let error = parse(
        r#"
        [agent]
        enabled = true
        allow_everything = true
        "#,
    )
    .expect_err("rejected");
    assert!(matches!(error, ConfigError::Toml(_)), "{error:?}");
}

#[test]
fn grants_must_name_an_absolute_executable_and_a_capability() {
    let relative = parse(
        r#"
        [[agent.grants]]
        executable = "nobox-agent"
        capabilities = ["observe"]
        "#,
    )
    .expect_err("invalid");
    assert!(matches!(relative, ConfigError::AgentGrantExecutable(1)));

    let empty = parse(
        r#"
        [[agent.grants]]
        executable = "/usr/bin/nobox-agent"
        capabilities = []
        "#,
    )
    .expect_err("invalid");
    assert!(matches!(
        empty,
        ConfigError::AgentGrantWithoutCapabilities(1)
    ));
}

#[test]
fn socket_overrides_are_bounded_by_the_platform() {
    let mut config = AgentConfig {
        socket: "relative.sock".to_owned(),
        ..AgentConfig::default()
    };
    assert!(matches!(
        config.validate().expect_err("invalid"),
        ConfigError::AgentSocketNotAbsolute(_)
    ));
    config.socket = format!("/tmp/{}", "s".repeat(120));
    assert!(matches!(
        config.validate().expect_err("invalid"),
        ConfigError::AgentSocketTooLong { .. }
    ));
    config.socket = "/run/user/1000/nobox/agent-seat-0.sock".to_owned();
    config.validate().expect("valid");
}

#[test]
fn an_empty_scope_matcher_is_refused() {
    let config = parse(
        r#"
        [[agent.grants]]
        executable = "/usr/bin/nobox-agent"
        capabilities = ["observe"]
        scope = {}
        "#,
    )
    .expect_err("invalid");
    assert!(matches!(config, ConfigError::EmptyAgentGrantScope(1)));
}

#[test]
fn launch_policy_starts_closed_and_opens_only_as_written() {
    let config = parse(
        r#"
        [agent.launch]
        policy = "allow_listed"
        allow = ["org.example.Editor.desktop"]
        "#,
    )
    .expect("parses");
    config.validate().expect("valid");
    let launch = &config.agent.launch;
    assert!(launch.allows("org.example.Editor.desktop", false));
    assert!(!launch.allows("org.example.Shell.desktop", false));
    assert!(
        !launch.allows("org.example.Editor.desktop", true),
        "user-installed entries stay closed until enabled"
    );
}

#[test]
fn installed_launch_policy_honors_the_deny_list() {
    let config = parse(
        r#"
        [agent.launch]
        policy = "allow_installed"
        deny = ["org.example.Wallet.desktop"]
        user_entries = true
        "#,
    )
    .expect("parses");
    config.validate().expect("valid");
    let launch = &config.agent.launch;
    assert!(launch.allows("org.example.Editor.desktop", false));
    assert!(launch.allows("org.example.Editor.desktop", true));
    assert!(!launch.allows("org.example.Wallet.desktop", false));
}

#[test]
fn launch_entries_may_not_be_paths() {
    let config = parse(
        r#"
        [agent.launch]
        policy = "allow_listed"
        allow = ["../../etc/evil.desktop"]
        "#,
    )
    .expect_err("invalid");
    assert!(matches!(config, ConfigError::InvalidLaunchEntry(_)));
}

#[test]
fn application_rules_carry_agent_visibility() {
    let config = parse(
        r#"
        [[applications]]
        match = { class = "Keepassxc" }
        agent_visibility = "hidden"

        [[applications]]
        match = { class = "Signal" }
        agent_visibility = "redacted"
        "#,
    )
    .expect("parses");
    config.validate().expect("valid");
    assert_eq!(
        config.applications[0].settings.agent_visibility,
        Some(AgentVisibility::Hidden)
    );
    assert_eq!(
        config.applications[1].settings.agent_visibility,
        Some(AgentVisibility::Redacted)
    );
    assert_eq!(
        config.applications[0]
            .settings
            .agent_visibility
            .unwrap_or_default(),
        AgentVisibility::Hidden
    );
    assert_eq!(AgentVisibility::default(), AgentVisibility::Visible);
}

#[test]
fn friendly_edits_preserve_comments_and_complex_bindings() {
    let mut document = open(SAMPLE).expect("valid defaults");
    document
        .set(SettingKey::FollowMouse, SettingValue::Boolean(true), &decode)
        .expect("valid focus update");
    document
        .set(
            SettingKey::WorkspaceNames,
            SettingValue::TextList(vec!["code".to_owned(), "web".to_owned()]), &decode)
        .expect("valid workspace update");
    document
        .set(SettingKey::InitialWorkspace, SettingValue::Integer(2), &decode)
        .expect("valid initial workspace update");
    document
        .set(SettingKey::MarginLeft, SettingValue::Integer(24), &decode)
        .expect("valid margin update");
    document
        .set(SettingKey::PanelShowClock, SettingValue::Boolean(false), &decode)
        .expect("valid panel update");
    document
        .set(
            SettingKey::PanelItems,
            SettingValue::TextList(
                ["launchers", "tasks", "spacer", "clock"]
                    .map(str::to_owned)
                    .to_vec(),
            ), &decode)
        .expect("valid panel order update");
    document
        .set(
            SettingKey::PanelLaunchers,
            SettingValue::TextList(vec!["org.example.Terminal.desktop".to_owned()]), &decode)
        .expect("valid panel launcher update");
    document
        .set(
            SettingKey::PanelClockFormat,
            SettingValue::Text("%a %H:%M".to_owned()), &decode)
        .expect("valid panel clock update");
    document
        .set(
            SettingKey::TerminalCommand,
            SettingValue::Text("kitty".to_owned()), &decode)
        .expect("valid terminal update");
    document
        .set(
            SettingKey::SessionCommand,
            SettingValue::Text("ssdd".to_owned()), &decode)
        .expect("valid session command update");
    document
        .set(
            SettingKey::TerminalShortcut,
            SettingValue::Text("W-F5".to_owned()), &decode)
        .expect("valid shortcut update");
    let source = document.source();
    assert!(source.contains("# Focus clients as the pointer enters them."));
    assert!(source.contains("[[keyboard.bindings]]"));
    let config = document.config(&decode).expect("edited config remains valid");
    assert!(config.focus.follow_mouse);
    assert_eq!(config.workspaces.names, ["code", "web"]);
    assert_eq!(config.workspaces.initial, 2);
    assert_eq!(config.margins.left, 24);
    assert!(!config.panel.show_clock);
    assert_eq!(config.panel.items[0], PanelItem::Launchers);
    assert_eq!(config.panel.launchers, ["org.example.Terminal.desktop"]);
    assert_eq!(config.panel.clock_format, "%a %H:%M");
    assert_eq!(config.commands.terminal, "kitty");
    assert_eq!(config.commands.session, "ssdd");
    assert_eq!(config.shortcuts.terminal.text(), "W-F5");
}

#[test]
fn invalid_edit_rolls_back_exact_source() {
    let mut document = open(SAMPLE).expect("valid defaults");
    let original = document.source();
    let error = document
        .set(SettingKey::BorderWidth, SettingValue::Integer(65), &decode)
        .expect_err("oversized border is rejected");
    assert!(matches!(error, SettingsError::Config(_)));
    assert_eq!(document.source(), original);
}

#[test]
fn workspace_count_preserves_names_and_clamps_dependent_fields() {
    let mut document = open(
        "# retained\n[workspaces]\nnames = ['code', 'web']\ncolumns = 2\ninitial = 2\n",
    )
    .expect("valid workspace settings");
    document
        .set_workspace_count(4, &decode)
        .expect("workspace count can grow");
    assert_eq!(
        document.config(&decode).unwrap().workspaces.names,
        ["code", "web", "3", "4"]
    );

    document
        .set_workspace_count(1, &decode)
        .expect("workspace count can shrink");
    let workspace = document.config(&decode).unwrap().workspaces;
    assert_eq!(workspace.names, ["code"]);
    assert_eq!(workspace.columns, 1);
    assert_eq!(workspace.initial, 1);
    assert!(document.source().starts_with("# retained\n"));
}

#[test]
fn invalid_workspace_count_is_transactional() {
    let mut document = open(SAMPLE).expect("valid defaults");
    let original = document.source();
    assert!(document.set_workspace_count(0, &decode).is_err());
    assert!(
        document
            .set_workspace_count(u32::try_from(MAX_WORKSPACES).unwrap_or(u32::MAX) + 1, &decode)
            .is_err()
    );
    assert_eq!(document.source(), original);
}

#[test]
fn workspace_count_does_not_break_absolute_bindings() {
    let mut document = open(
        "[workspaces]\nnames = ['one', 'two']\n\
         [[keyboard.bindings]]\nkey = 'W-2'\n\
         action = { type = 'switch_workspace', workspace = 2 }\n",
    )
    .expect("valid absolute workspace binding");
    let original = document.source();
    assert!(document.set_workspace_count(1, &decode).is_err());
    assert_eq!(document.source(), original);
}

#[test]
fn wrong_friendly_value_kind_is_rejected() {
    let mut document = open(SAMPLE).expect("valid defaults");
    let error = document
        .set(SettingKey::Font, SettingValue::Boolean(true), &decode)
        .expect_err("wrong type is rejected");
    assert!(matches!(
        error,
        SettingsError::WrongValueType(SettingKey::Font)
    ));
}

#[test]
fn a_stored_grant_binds_to_the_executable_and_keeps_the_file_intact() {
    let mut document =
        open("# keep me\n[focus]\nfollow_mouse = true\n").expect("parses");
    document
        .append_agent_grant(
            "my harness",
            "/usr/bin/nobox-agent",
            Some(1000),
            &vec!["observe".to_owned(), "manage.activate".to_owned()], &decode)
        .expect("stored");
    let source = document.source();
    assert!(source.contains("# keep me"), "{source}");
    assert!(source.contains("follow_mouse = true"), "{source}");
    assert!(source.contains("[[agent.grants]]"), "{source}");
    assert!(source.contains("/usr/bin/nobox-agent"), "{source}");
    assert!(
        !source.contains("my harness\"\nharness"),
        "a declared name must never become a matching key"
    );

    let config = document.config(&decode).expect("valid");
    assert!(config.agent.enabled);
    assert_eq!(config.agent.grants.len(), 1);
    let held = config
        .agent
        .capabilities_for(Some("/usr/bin/nobox-agent"), 1000);
    assert!(held.holds(Capability::ObserveStructure));
    assert!(held.holds(Capability::ManageActivate));
    assert!(
        config
            .agent
            .capabilities_for(Some("/usr/bin/nobox-agent"), 1001)
            .is_empty(),
        "the stored user is part of the binding"
    );
}

#[test]
fn a_stored_grant_can_be_taken_back() {
    let mut document = open("# keep me\n").expect("parses");
    for name in ["first", "second"] {
        document
            .append_agent_grant(
                name,
                "/usr/bin/nobox-agent",
                None,
                &vec!["observe".to_owned()], &decode)
            .expect("stored");
    }
    assert_eq!(document.config(&decode).expect("valid").agent.grants.len(), 2);
    document.remove_agent_grant(0, &decode).expect("removed");
    let config = document.config(&decode).expect("valid");
    assert_eq!(config.agent.grants.len(), 1);
    assert_eq!(config.agent.grants[0].label, "second");
    assert!(document.source().contains("# keep me"));
    assert!(
        document.remove_agent_grant(5, &decode).is_err(),
        "a position that holds no grant changes nothing"
    );
    document.remove_agent_grant(0, &decode).expect("removed");
    assert!(document.config(&decode).expect("valid").agent.grants.is_empty());
}

#[test]
fn a_stored_grant_refuses_what_the_schema_would_refuse() {
    let mut document = open("").expect("parses");
    assert!(
        document
            .append_agent_grant("x", "nobox-agent", None, &vec!["observe".to_owned()], &decode)
            .is_err()
    );
    assert!(
        document
            .append_agent_grant("x", "/usr/bin/nobox-agent", None, &vec![], &decode)
            .is_err()
    );
    assert!(
        document
            .append_agent_grant(
                "x",
                "/usr/bin/nobox-agent",
                None,
                &vec!["observe.everything".to_owned()], &decode)
            .is_err(),
        "an unknown capability is refused before it is written"
    );
    assert_eq!(document.source(), "", "a refused edit changes nothing");
}

#[test]
fn launch_edits_are_typed_transactional_and_preserve_unknown_entries() {
    let mut document = open(
        "# retained\n[agent.launch]\npolicy = 'allow_listed'\n\
         allow = ['missing.desktop']\ndeny = ['old.desktop']\nuser_entries = false\n",
    )
    .expect("valid launch policy");

    document
        .set_agent_launch_selection("org.example.Editor.desktop", true, &decode)
        .expect("select installed entry");
    document
        .set_agent_launch_policy(LaunchPolicy::AllowInstalled, &decode)
        .expect("change mode");
    document
        .set_agent_launch_selection("org.example.Editor.desktop", true, &decode)
        .expect("block installed entry");
    document
        .set_agent_launch_user_entries(true, &decode)
        .expect("enable user entries");

    let launch = document.config(&decode).expect("valid result").agent.launch;
    assert_eq!(launch.policy, LaunchPolicy::AllowInstalled);
    assert_eq!(
        launch.allow,
        ["missing.desktop", "org.example.Editor.desktop"]
    );
    assert_eq!(launch.deny, ["old.desktop", "org.example.Editor.desktop"]);
    assert!(launch.user_entries);
    assert!(document.source().starts_with("# retained\n"));
    assert!(document.source().contains("[agent.launch]"));

    document
        .set_agent_launch_selection("org.example.Editor.desktop", false, &decode)
        .expect("unblock installed entry");
    assert_eq!(
        document.config(&decode).expect("valid result").agent.launch.deny,
        ["old.desktop"]
    );
}

#[test]
fn refused_launch_edits_leave_the_document_unchanged() {
    let mut document = open(SAMPLE).expect("valid defaults");
    let original = document.source();
    assert!(matches!(
        document.set_agent_launch_selection("org.example.Editor.desktop", true, &decode),
        Err(SettingsError::LaunchSelectionWhileDenied)
    ));
    assert_eq!(document.source(), original);

    document
        .set_agent_launch_policy(LaunchPolicy::AllowListed, &decode)
        .expect("enable selection");
    let enabled = document.source();
    assert!(enabled.contains("[agent.launch]"));
    assert!(
        document
            .set_agent_launch_selection("../not-a-desktop-id", true, &decode)
            .is_err()
    );
    assert_eq!(document.source(), enabled);
}

#[test]
fn launch_selection_bound_is_checked_before_editing() {
    let entries = (0..MAX_LAUNCH_ENTRIES)
        .map(|index| format!("entry-{index}.desktop"))
        .collect::<Vec<_>>()
        .join("', '");
    let source = format!("[agent.launch]\npolicy = 'allow_listed'\nallow = ['{entries}']\n");
    let mut document = open(&source).expect("full list is valid");
    let original = document.source();
    assert!(
        document
            .set_agent_launch_selection("overflow.desktop", true, &decode)
            .is_err()
    );
    assert_eq!(document.source(), original);
}

#[test]
fn advanced_replacement_is_transactional_and_bounded() {
    let mut document = open(SAMPLE).expect("valid defaults");
    let original = document.source();
    assert!(
        document
            .replace_source("[focus]\nunknown = true\n", &decode)
            .is_err()
    );
    assert_eq!(document.source(), original);
    let oversized = "#".repeat(MAX_SETTINGS_SOURCE_BYTES + 1);
    assert!(matches!(
        open(&oversized),
        Err(SettingsError::TooLarge(_))
    ));
}

#[test]
fn representative_openbox_theme_maps_to_valid_nobox_toml() {
    let source = "\
        border.width: 1\n\
        padding.width: 3\n\
        *.justify: center\n\
        window.*.border.color: #585a5d\n\
        window.active.title.bg: raised gradient vertical\n\
        window.active.title.bg.color: #8CB0DC\n\
        window.active.title.bg.colorTo: #7AA1D1\n\
        window.inactive.title.bg.color: #E3E2E0\n\
        window.active.label.text.color: white\n\
        window.inactive.label.text.color: #70747d\n\
        window.active.button.*.bg.color: rgb:92/b4/df\n\
        window.active.button.*.image.color: #444\n\
        menu.items.bg.color: grey85\n";
    let imported = OpenboxThemeImport::parse(source).expect("valid Openbox theme");
    assert_eq!(imported.theme.border_width, 1);
    assert_eq!(imported.theme.title_padding, 3);
    assert_eq!(imported.theme.title_alignment, TitleAlignment::Center);
    assert_eq!(imported.theme.active_border, color(0x58_5a_5d));
    assert_eq!(imported.theme.inactive_border, color(0x58_5a_5d));
    assert_eq!(imported.theme.active_titlebar, color(0x8c_b0_dc));
    assert_eq!(imported.theme.inactive_titlebar, color(0xe3_e2_e0));
    assert_eq!(imported.theme.title_text, color(0xff_ff_ff));
    assert_eq!(imported.theme.minimize_button, color(0x92_b4_df));
    assert_eq!(imported.theme.maximize_button, color(0x92_b4_df));
    assert_eq!(imported.theme.close_button, color(0x92_b4_df));
    assert_eq!(imported.theme.button_glyph, color(0x44_44_44));
    assert!(
        imported
            .warnings
            .iter()
            .any(|warning| warning.contains("gradient"))
    );
    assert!(
        imported
            .warnings
            .iter()
            .any(|warning| warning.contains("title-text"))
    );
    parse(&imported.to_toml()).expect("import output is valid nobox TOML");
}

#[test]
fn legacy_color_syntax_and_hostile_input_are_bounded() {
    assert_eq!(parse_openbox_color("#711"), Some(color(0x77_11_11)));
    assert_eq!(
        parse_openbox_color("rgb:80/84/88"),
        Some(color(0x80_84_88))
    );
    assert_eq!(parse_openbox_color("grey60"), Some(color(0x99_99_99)));
    assert_eq!(parse_openbox_color("not-a-color"), None);
    assert_eq!(
        OpenboxThemeImport::parse("! comments only"),
        Err(OpenboxThemeImportError::NoProperties)
    );
    assert!(matches!(
        OpenboxThemeImport::parse(&"x".repeat(MAX_SOURCE_BYTES + 1)),
        Err(OpenboxThemeImportError::SourceTooLarge(_))
    ));
}

#[test]
fn the_last_of_repeated_bindings_wins() {
    let key = "W-q".parse::<KeySequence>().expect("key");
    let mut config = Config::default();
    config.keyboard.bindings = vec![
        KeyBinding { key: key.clone(), actions: vec![Action::Close] },
        KeyBinding { key: key.clone(), actions: vec![Action::ToggleDecorations] },
    ];
    let effective = config.keyboard.effective_bindings();
    let bound: Vec<&KeyBinding> = effective.iter().filter(|binding| binding.key == key).collect();
    assert_eq!(bound.len(), 1);
    assert_eq!(bound[0].actions, vec![Action::ToggleDecorations]);
}

#[test]
fn workspace_fields_are_written_together() {
    let mut document = open("# only a comment\n").expect("defaults");
    document.set_workspace_count(2, &decode).expect("two workspaces");
    assert_eq!(
        document.source(),
        "workspaces = { names = [\"1\", \"2\"], columns = 0, initial = 1 }\n# only a comment\n"
    );
}

#[test]
fn rendered_themes_parse_back() {
    for source in [
        "border.width: 7\n*.justify: right\npadding.width: 0\n",
        "window.active.title.bg.color: #010203\nwindow.active.button.*.bg.color: rgb:0a/0b/0c\n",
        "unheard.of: 1\n",
    ] {
        let import = OpenboxThemeImport::parse(source).expect("import");
        let config = parse(&import.to_toml()).expect("rendered theme");
        assert_eq!(config.theme, import.theme);
    }
}
