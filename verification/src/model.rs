//! State, events and commands of the explorer.

use crate::collections::{AssocMap, StringSet};
use crate::edit::cursor_valid;
use crate::loki::{LokiEntry, LokiStream};
use crate::prometheus::types::{
    PrometheusResponse, PrometheusStringListResponse, PrometheusVectorItem,
};
use crate::pyroscope::{FlameGraph, FlamegraphNav, HeatmapSlot, TimelineSeries};
use crate::tempo::{TempoSpan, TempoTrace};
use vstd::prelude::*;
use vstd::string::*;
use vstd::utf8::*;

verus! {

/// A datasource of the server.
#[derive(Debug, Clone)]
pub struct Datasource {
    pub id: u64,
    pub uid: String,
    pub name: String,
    pub ds_type: String,
    pub url: String,
    pub is_default: bool,
    pub access: String,
}

/// A service with a profile type.
#[derive(Debug, Clone)]
pub struct PyroscopeSeriesItem {
    pub service_name: String,
    pub profile_type_id: String,
}

/// A request that failed.
#[derive(Debug, Clone)]
pub struct HttpError {
    /// What went wrong, as text
    pub text: String,
    /// The body of the response, where one with an error status came
    pub body: Option<Vec<u8>>,
}

/// What a response is to be taken for.
#[derive(Debug, PartialEq, Eq)]
pub enum Reply {
    Datasources,
    QueryResult,
    MetricNames,
    /// Names of labels under a selector
    LabelNames(String),
    /// Values of a label under a selector
    LabelValues(String, String),
}

/// A GET request.
#[derive(Debug, PartialEq, Eq)]
pub struct Request {
    pub url: String,
    /// Value of the `Authorization` header
    pub authorization: String,
    pub reply: Reply,
}

/// What is to be done after an event.
#[derive(Debug, PartialEq, Eq)]
pub enum Command {
    /// Nothing
    Done,
    /// Show the state
    Render,
    /// Handle `Event::FetchDatasources` next
    FetchDatasources,
    /// Show the state and send the requests
    RenderAndFetch(Vec<Request>),
}

/// What happens to the explorer.
#[derive(Debug)]
pub enum Event {
    Configure { url: String, token: String },
    FetchDatasources,
    SelectNext,
    SelectPrevious,
    DatasourcesLoaded(Result<Option<Vec<Datasource>>, HttpError>),
    Quit,
    // Query screen
    EnterQuery,
    QueryInput(char),
    QueryBackspace,
    QueryDelete,
    CursorLeft,
    CursorRight,
    CursorHome,
    CursorEnd,
    ExecuteQuery,
    QueryResultLoaded(Result<Option<PrometheusResponse>, HttpError>),
    BackToDatasources,
    /// Fired once typing pauses
    TriggerCompletions,
    // Datasource filter
    DatasourceFilterFocus,
    DatasourceFilterBlur,
    DatasourceFilterInput(char),
    DatasourceFilterBackspace,
    DatasourceFilterClear,
    // Autocomplete
    MetricNamesLoaded(Result<Option<PrometheusStringListResponse>, HttpError>),
    /// With the selector that the names were asked for; empty for all names
    LabelNamesLoaded(String, Result<Option<PrometheusStringListResponse>, HttpError>),
    /// With the label and the selector that the values were asked for
    LabelValuesLoaded(String, String, Result<Option<PrometheusStringListResponse>, HttpError>),
    CompletionNext,
    CompletionPrev,
    CompletionAccept,
    CompletionDismiss,
    HistoryNavigate(String),
    // Profiles
    EnterPyroscope { now_unix_ms: i64 },
    /// Go directly to the flamegraph of a known service and profile type
    PyroscopeDirectLoad { service_name: String, profile_type: String },
    PyroscopeSeriesNext,
    PyroscopeSeriesPrev,
    PyroscopeSeriesLoaded(Result<Vec<(String, String)>, String>),
    // Time range picker
    TimeRangePickerOpen { now_unix_ms: i64 },
    TimeRangePickerClose,
    TimeRangePickerNext,
    TimeRangePickerPrev,
    TimeRangePickerToggleFocus,
    TimeRangePickerCustomInput(char),
    TimeRangePickerCustomBackspace,
    TimeRangePickerCursorLeft,
    TimeRangePickerCursorRight,
    TimeRangePickerCommit { now_unix_ms: i64 },
    PyroscopeProfileTypeNext,
    PyroscopeProfileTypePrev,
    PyroscopeProfileTypeDropdownOpen,
    PyroscopeProfileTypeDropdownClose,
    PyroscopeServiceFilterFocus,
    PyroscopeServiceFilterBlur,
    PyroscopeServiceFilterInput(char),
    PyroscopeServiceFilterBackspace,
    PyroscopeServiceFilterClear,
    PyroscopeSelectSeries { now_unix_ms: i64 },
    /// Set the time range without a reload
    PyroscopeSetTimeRange(String),
    /// Select the series of a service and profile type
    PyroscopeSelectByName { service_name: String, profile_type: String },
    PyroscopeFlamegraphLoaded(Result<Option<FlameGraph>, String>),
    PyroscopeTimelineLoaded(Result<Vec<TimelineSeries>, String>),
    PyroscopeHeatmapLoaded(Result<Vec<HeatmapSlot>, String>),
    PyroscopeSpanHeatmapLoaded(Result<Vec<HeatmapSlot>, String>),
    /// 0 = flamegraph, 1 = timeline, 2 = profile heatmap, 3 = span heatmap
    PyroscopeSelectView(usize),
    ExemplarSelectNext,
    ExemplarSelectPrev,
    ExemplarDetailOpen,
    ExemplarDetailClose,
    // From the span heatmap to traces
    SpanHeatmapOpenTempoPicker,
    SpanHeatmapCloseTempoPicker,
    SpanHeatmapTempoPickerNext,
    SpanHeatmapTempoPickerPrev,
    SpanHeatmapClearResults,
    SpanHeatmapTempoLoadingStarted,
    SpanHeatmapTempoLoadingDone,
    SpanHeatmapTempoResultLoaded { span_id: String, trace_id: String },
    /// Span IDs with their trace IDs
    SpanHeatmapTempoBatchLoaded(Vec<(String, String)>),
    BackToServiceList,
    BackFromPyroscope,
    FlameMoveLeft,
    FlameMoveRight,
    FlameMoveUp,
    FlameMoveDown,
    FlameZoomIn,
    FlameZoomOut,
    FlamegraphViewportChars(u64),
    /// Toggle the sandwich view of the selected function
    FlameSandwich,
    FlameSandwichClear,
    // Favourites, by datasource UID
    FavouritesLoaded(Vec<String>),
    ToggleFavourite(String),
    // History panel
    HistoryEntriesLoaded(Vec<HistoryEntryView>),
    HistoryPanelFocus,
    HistoryPanelBlur,
    HistorySelectNext,
    HistorySelectPrev,
    /// Select a datasource by UID, or else by name
    SelectDatasource { uid: String, name: String },
    // Traces
    EnterTempo,
    TempoQueryInput(char),
    TempoQueryBackspace,
    TempoQueryCursorLeft,
    TempoQueryCursorRight,
    TempoExecuteQuery,
    TempoResultLoaded(Result<Vec<TempoTrace>, String>),
    BackFromTempo,
    TempoSelectNext,
    TempoSelectPrev,
    TempoOpenTrace,
    TempoTraceDetailLoaded(Result<Vec<TempoSpan>, String>),
    TempoTraceDetailNext,
    TempoTraceDetailPrev,
    TempoTraceDetailFilterFocus,
    TempoTraceDetailFilterBlur,
    TempoTraceDetailFilterInput(char),
    TempoTraceDetailFilterBackspace,
    TempoTraceDetailAttrScrollDown,
    TempoTraceDetailAttrScrollUp,
    BackFromTraceDetail,
    // Logs
    EnterLoki,
    LokiQueryChanged(String),
    LokiExecuteQuery,
    LokiResultLoaded(Result<Vec<LokiStream>, String>),
    LokiSelectNextRow,
    LokiSelectPrevRow,
    LokiOpenContext,
    LokiCloseContext,
    /// Log lines around the selected one, and its place among them
    LokiContextLoaded(Result<(Vec<LokiEntry>, usize), String>),
    BackFromLoki,
    LokiDiagnosticsUpdated(Vec<LokiDiagnosticView>),
}

/// The screens.
#[derive(Debug, Clone, Copy, PartialEq, Eq, Structural)]
pub enum Screen {
    DatasourceList,
    QueryMode,
    PyroscopeMode,
    TempoMode,
    TempoTraceDetail,
    LokiMode,
}

impl Default for Screen {
    fn default() -> (r: Self)
        ensures
            r == Screen::DatasourceList,
    {
        Screen::DatasourceList
    }
}

/// The screens of profiles.
#[derive(Debug, Clone, Copy, PartialEq, Eq, Structural)]
pub enum PyroscopeSubScreen {
    ServiceList,
    Flamegraph,
    Timeline,
    ProfileHeatmap,
    SpanHeatmap,
}

impl Default for PyroscopeSubScreen {
    fn default() -> (r: Self)
        ensures
            r == PyroscopeSubScreen::ServiceList,
    {
        PyroscopeSubScreen::ServiceList
    }
}

/// A past query.
#[derive(Debug, Clone)]
pub struct HistoryEntryView {
    /// The query, or `service:profile_type` for profiles
    pub query: String,
    pub datasource_name: String,
    pub datasource_uid: String,
    /// `prometheus` or `pyroscope`
    pub datasource_type: String,
    /// Age, e.g. "5m ago"
    pub time_ago: String,
    /// For profiles, otherwise empty
    pub service_name: String,
    pub profile_type: String,
    pub time_range: String,
}

/// A diagnostic of the log query.
#[derive(Debug, Clone, Default)]
pub struct LokiDiagnosticView {
    pub severity: String,
    pub message: String,
    pub start_byte: usize,
    pub end_byte: usize,
}

/// The list of datasources.
#[derive(Debug)]
pub struct DatasourceState {
    pub items: Vec<Datasource>,
    pub loading: bool,
    pub error: Option<String>,
    /// Place in the list as it is shown
    pub selected_index: usize,
    pub filter: String,
    pub filter_focused: bool,
    /// UIDs of datasources
    pub favourites: StringSet,
}

impl DatasourceState {
    /// Nothing is loaded or typed.
    pub open spec fn is_initial(self) -> bool {
        &&& self.items@.len() == 0
        &&& !self.loading
        &&& self.error is None
        &&& self.selected_index == 0
        &&& self.filter@.len() == 0
        &&& !self.filter_focused
        &&& self.favourites@ == Set::<Seq<char>>::empty()
    }
}

impl Default for DatasourceState {
    fn default() -> (r: Self)
        ensures
            r.is_initial(),
    {
        DatasourceState {
            items: Vec::new(),
            loading: false,
            error: None,
            selected_index: 0,
            filter: String::new(),
            filter_focused: false,
            favourites: StringSet::new(),
        }
    }
}

/// The panel of past queries.
#[derive(Debug)]
pub struct HistoryState {
    pub entries: Vec<HistoryEntryView>,
    pub panel_focused: bool,
    pub selected_index: usize,
}

impl HistoryState {
    /// Nothing is loaded or typed.
    pub open spec fn is_initial(self) -> bool {
        &&& self.entries@.len() == 0
        &&& !self.panel_focused
        &&& self.selected_index == 0
    }
}

impl Default for HistoryState {
    fn default() -> (r: Self)
        ensures
            r.is_initial(),
    {
        HistoryState {
            entries: Vec::new(),
            panel_focused: false,
            selected_index: 0,
        }
    }
}

/// The query screen.
#[derive(Debug)]
pub struct QueryState {
    pub query: String,
    /// Cursor in `query`, in characters
    pub cursor_pos: usize,
    pub loading: bool,
    pub error: Option<String>,
    pub results: Option<Vec<PrometheusVectorItem>>,
}

impl QueryState {
    /// Nothing is loaded or typed.
    pub open spec fn is_initial(self) -> bool {
        &&& self.query@.len() == 0
        &&& self.cursor_pos == 0
        &&& !self.loading
        &&& self.error is None
        &&& self.results is None
    }
}

impl Default for QueryState {
    fn default() -> (r: Self)
        ensures
            r.is_initial(),
    {
        QueryState {
            query: String::new(),
            cursor_pos: 0,
            loading: false,
            error: None,
            results: None,
        }
    }
}

/// Completion on the query screen.
#[derive(Debug)]
pub struct CompletionState {
    pub metric_names: Vec<String>,
    /// Label names by selector
    pub label_names_cache: AssocMap<String, Vec<String>>,
    /// Values by label and selector
    pub label_values_cache: AssocMap<(String, String), Vec<String>>,
    /// The selected completion
    pub index: Option<usize>,
    pub dismissed: bool,
    pub metric_names_loading: bool,
    pub label_names_loading: bool,
}

impl CompletionState {
    /// Nothing is loaded or typed.
    pub open spec fn is_initial(self) -> bool {
        &&& self.metric_names@.len() == 0
        &&& self.label_names_cache@ == Map::<Seq<char>, Vec<String>>::empty()
        &&& self.label_values_cache@ == Map::<(Seq<char>, Seq<char>), Vec<String>>::empty()
        &&& self.index is None
        &&& !self.dismissed
        &&& !self.metric_names_loading
        &&& !self.label_names_loading
    }
}

impl Default for CompletionState {
    fn default() -> (r: Self)
        ensures
            r.is_initial(),
    {
        CompletionState {
            metric_names: Vec::new(),
            label_names_cache: AssocMap::new(),
            label_values_cache: AssocMap::new(),
            index: None,
            dismissed: false,
            metric_names_loading: false,
            label_names_loading: false,
        }
    }
}

/// The time range picker.
#[derive(Debug)]
pub struct PickerState {
    pub open: bool,
    /// Place in the list of presets
    pub index: usize,
    /// 0 = preset list, 1 = absolute From, 2 = absolute To
    pub focus: u8,
    /// `YYYY-MM-DD HH:MM:SS`
    pub abs_from: String,
    /// `YYYY-MM-DD HH:MM:SS`
    pub abs_to: String,
    /// Byte cursor within `abs_from`
    pub from_cursor: usize,
    /// Byte cursor within `abs_to`
    pub to_cursor: usize,
}

impl PickerState {
    /// Nothing is loaded or typed.
    pub open spec fn is_initial(self) -> bool {
        &&& !self.open
        &&& self.index == 0
        &&& self.focus == 0
        &&& self.abs_from@.len() == 0
        &&& self.abs_to@.len() == 0
        &&& self.from_cursor == 0
        &&& self.to_cursor == 0
    }
}

impl Default for PickerState {
    fn default() -> (r: Self)
        ensures
            r.is_initial(),
    {
        PickerState {
            open: false,
            index: 0,
            focus: 0,
            abs_from: String::new(),
            abs_to: String::new(),
            from_cursor: 0,
            to_cursor: 0,
        }
    }
}

/// The list of services with profiles.
#[derive(Debug)]
pub struct SeriesState {
    pub loading: bool,
    pub error: Option<String>,
    pub items: Vec<PyroscopeSeriesItem>,
    pub profile_types: Vec<String>,
    pub profile_type_index: usize,
    pub dropdown_open: bool,
    pub filter: String,
    pub filter_focused: bool,
    /// Place in the list as it is shown
    pub index: usize,
    pub selected_service: String,
    pub selected_profile_type: String,
}

impl SeriesState {
    /// Nothing is loaded or typed.
    pub open spec fn is_initial(self) -> bool {
        &&& !self.loading
        &&& self.error is None
        &&& self.items@.len() == 0
        &&& self.profile_types@.len() == 0
        &&& self.profile_type_index == 0
        &&& !self.dropdown_open
        &&& self.filter@.len() == 0
        &&& !self.filter_focused
        &&& self.index == 0
        &&& self.selected_service@.len() == 0
        &&& self.selected_profile_type@.len() == 0
    }
}

impl Default for SeriesState {
    fn default() -> (r: Self)
        ensures
            r.is_initial(),
    {
        SeriesState {
            loading: false,
            error: None,
            items: Vec::new(),
            profile_types: Vec::new(),
            profile_type_index: 0,
            dropdown_open: false,
            filter: String::new(),
            filter_focused: false,
            index: 0,
            selected_service: String::new(),
            selected_profile_type: String::new(),
        }
    }
}

/// The flamegraph.
#[derive(Debug)]
pub struct FlameState {
    pub loading: bool,
    pub error: Option<String>,
    pub graph: Option<FlameGraph>,
    pub nav: FlamegraphNav,
    /// The function whose sandwich view is active
    pub sandwich_name: Option<String>,
}

impl FlameState {
    /// Nothing is loaded or typed.
    pub open spec fn is_initial(self) -> bool {
        &&& !self.loading
        &&& self.error is None
        &&& self.graph is None
        &&& self.nav == FlamegraphNav::initial()
        &&& self.sandwich_name is None
    }
}

impl Default for FlameState {
    fn default() -> (r: Self)
        ensures
            r.is_initial(),
    {
        FlameState {
            loading: false,
            error: None,
            graph: None,
            nav: FlamegraphNav::default(),
            sandwich_name: None,
        }
    }
}

/// The timeline.
#[derive(Debug)]
pub struct TimelineState {
    pub loading: bool,
    pub error: Option<String>,
    pub series: Vec<TimelineSeries>,
}

impl TimelineState {
    /// Nothing is loaded or typed.
    pub open spec fn is_initial(self) -> bool {
        &&& !self.loading
        &&& self.error is None
        &&& self.series@.len() == 0
    }
}

impl Default for TimelineState {
    fn default() -> (r: Self)
        ensures
            r.is_initial(),
    {
        TimelineState {
            loading: false,
            error: None,
            series: Vec::new(),
        }
    }
}

/// A heatmap.
#[derive(Debug)]
pub struct HeatmapState {
    pub loading: bool,
    pub error: Option<String>,
    pub slots: Vec<HeatmapSlot>,
}

impl HeatmapState {
    /// Nothing is loaded or typed.
    pub open spec fn is_initial(self) -> bool {
        &&& !self.loading
        &&& self.error is None
        &&& self.slots@.len() == 0
    }
}

impl Default for HeatmapState {
    fn default() -> (r: Self)
        ensures
            r.is_initial(),
    {
        HeatmapState {
            loading: false,
            error: None,
            slots: Vec::new(),
        }
    }
}

/// Traces of the spans in the span heatmap.
#[derive(Debug)]
pub struct SpanTraceState {
    pub picker_open: bool,
    pub picker_index: usize,
    pub loading: bool,
    /// Trace IDs by span ID
    pub lookup: AssocMap<String, String>,
}

impl SpanTraceState {
    /// Nothing is loaded or typed.
    pub open spec fn is_initial(self) -> bool {
        &&& !self.picker_open
        &&& self.picker_index == 0
        &&& !self.loading
        &&& self.lookup@ == Map::<Seq<char>, String>::empty()
    }
}

impl Default for SpanTraceState {
    fn default() -> (r: Self)
        ensures
            r.is_initial(),
    {
        SpanTraceState {
            picker_open: false,
            picker_index: 0,
            loading: false,
            lookup: AssocMap::new(),
        }
    }
}

/// The search for traces.
#[derive(Debug)]
pub struct TempoState {
    pub query: String,
    /// Cursor in `query`, in bytes
    pub cursor_pos: usize,
    pub loading: bool,
    pub error: Option<String>,
    pub results: Vec<TempoTrace>,
    pub selected: usize,
}

impl TempoState {
    /// Nothing is loaded or typed.
    pub open spec fn is_initial(self) -> bool {
        &&& self.query@.len() == 0
        &&& self.cursor_pos == 0
        &&& !self.loading
        &&& self.error is None
        &&& self.results@.len() == 0
        &&& self.selected == 0
    }
}

impl Default for TempoState {
    fn default() -> (r: Self)
        ensures
            r.is_initial(),
    {
        TempoState {
            query: String::new(),
            cursor_pos: 0,
            loading: false,
            error: None,
            results: Vec::new(),
            selected: 0,
        }
    }
}

/// The spans of a trace.
#[derive(Debug)]
pub struct TraceDetailState {
    pub trace_id: String,
    pub spans: Vec<TempoSpan>,
    pub loading: bool,
    pub error: Option<String>,
    pub selected: usize,
    pub filter: String,
    pub filter_focused: bool,
    pub attr_scroll: usize,
}

impl TraceDetailState {
    /// Nothing is loaded or typed.
    pub open spec fn is_initial(self) -> bool {
        &&& self.trace_id@.len() == 0
        &&& self.spans@.len() == 0
        &&& !self.loading
        &&& self.error is None
        &&& self.selected == 0
        &&& self.filter@.len() == 0
        &&& !self.filter_focused
        &&& self.attr_scroll == 0
    }
}

impl Default for TraceDetailState {
    fn default() -> (r: Self)
        ensures
            r.is_initial(),
    {
        TraceDetailState {
            trace_id: String::new(),
            spans: Vec::new(),
            loading: false,
            error: None,
            selected: 0,
            filter: String::new(),
            filter_focused: false,
            attr_scroll: 0,
        }
    }
}

/// The log screen.
#[derive(Debug)]
pub struct LokiState {
    pub query: String,
    /// Cursor in `query`, in bytes
    pub cursor_pos: usize,
    /// Whether the query has changed since it was last run
    pub query_dirty: bool,
    pub loading: bool,
    pub error: Option<String>,
    pub results: Vec<LokiStream>,
    pub selected_row: usize,
    pub diagnostics: Vec<LokiDiagnosticView>,
}

impl LokiState {
    /// Nothing is loaded or typed.
    pub open spec fn is_initial(self) -> bool {
        &&& self.query@.len() == 0
        &&& self.cursor_pos == 0
        &&& !self.query_dirty
        &&& !self.loading
        &&& self.error is None
        &&& self.results@.len() == 0
        &&& self.selected_row == 0
        &&& self.diagnostics@.len() == 0
    }
}

impl Default for LokiState {
    fn default() -> (r: Self)
        ensures
            r.is_initial(),
    {
        LokiState {
            query: String::new(),
            cursor_pos: 0,
            query_dirty: false,
            loading: false,
            error: None,
            results: Vec::new(),
            selected_row: 0,
            diagnostics: Vec::new(),
        }
    }
}

/// The log lines around one of them.
#[derive(Debug)]
pub struct LogContextState {
    pub open: bool,
    pub loading: bool,
    pub error: Option<String>,
    pub entries: Vec<LokiEntry>,
    pub highlight_index: usize,
    pub labels: String,
}

impl LogContextState {
    /// Nothing is loaded or typed.
    pub open spec fn is_initial(self) -> bool {
        &&& !self.open
        &&& !self.loading
        &&& self.error is None
        &&& self.entries@.len() == 0
        &&& self.highlight_index == 0
        &&& self.labels@.len() == 0
    }
}

impl Default for LogContextState {
    fn default() -> (r: Self)
        ensures
            r.is_initial(),
    {
        LogContextState {
            open: false,
            loading: false,
            error: None,
            entries: Vec::new(),
            highlight_index: 0,
            labels: String::new(),
        }
    }
}

/// The state of the explorer.
#[derive(Debug)]
pub struct Model {
    pub grafana_url: String,
    pub grafana_token: String,
    pub datasources: DatasourceState,
    pub history: HistoryState,
    pub screen: Screen,
    pub promql: QueryState,
    pub completion: CompletionState,
    /// Time range of all signals
    pub time_range: String,
    pub picker: PickerState,
    pub sub_screen: PyroscopeSubScreen,
    pub series: SeriesState,
    pub flame: FlameState,
    pub timeline: TimelineState,
    pub heatmap: HeatmapState,
    pub span_heatmap: HeatmapState,
    pub exemplar_index: usize,
    pub exemplar_detail_open: bool,
    pub span_traces: SpanTraceState,
    pub tempo: TempoState,
    pub trace: TraceDetailState,
    pub loki: LokiState,
    pub log_context: LogContextState,
}

impl Model {
    /// The cursors stand in their texts.
    pub open spec fn wf(self) -> bool {
        &&& self.promql.cursor_pos <= self.promql.query@.len()
        &&& cursor_valid(self.tempo.query@, self.tempo.cursor_pos as int)
    }

    /// Nothing is configured, loaded or typed.
    pub open spec fn is_initial(self) -> bool {
        &&& self.grafana_url@.len() == 0
        &&& self.grafana_token@.len() == 0
        &&& self.datasources.is_initial()
        &&& self.history.is_initial()
        &&& self.screen == Screen::DatasourceList
        &&& self.promql.is_initial()
        &&& self.completion.is_initial()
        &&& self.time_range@.len() == 0
        &&& self.picker.is_initial()
        &&& self.sub_screen == PyroscopeSubScreen::ServiceList
        &&& self.series.is_initial()
        &&& self.flame.is_initial()
        &&& self.timeline.is_initial()
        &&& self.heatmap.is_initial()
        &&& self.span_heatmap.is_initial()
        &&& self.exemplar_index == 0
        &&& !self.exemplar_detail_open
        &&& self.span_traces.is_initial()
        &&& self.tempo.is_initial()
        &&& self.trace.is_initial()
        &&& self.loki.is_initial()
        &&& self.log_context.is_initial()
    }
}

impl Default for Model {
    /// The state before anything is configured.
    fn default() -> (r: Self)
        ensures
            r.is_initial(),
            r.wf(),
    {
        proof {
            encode_utf8_valid_utf8(Seq::<char>::empty());
            is_char_boundary_start_end_of_seq(encode_utf8(Seq::<char>::empty()));
        }
        let tempo = TempoState::default();
        assert(tempo.query@ =~= Seq::<char>::empty());
        Model {
            grafana_url: String::new(),
            grafana_token: String::new(),
            datasources: DatasourceState::default(),
            history: HistoryState::default(),
            screen: Screen::DatasourceList,
            promql: QueryState::default(),
            completion: CompletionState::default(),
            time_range: String::new(),
            picker: PickerState::default(),
            sub_screen: PyroscopeSubScreen::ServiceList,
            series: SeriesState::default(),
            flame: FlameState::default(),
            timeline: TimelineState::default(),
            heatmap: HeatmapState::default(),
            span_heatmap: HeatmapState::default(),
            exemplar_index: 0,
            exemplar_detail_open: false,
            span_traces: SpanTraceState::default(),
            tempo,
            trace: TraceDetailState::default(),
            loki: LokiState::default(),
            log_context: LogContextState::default(),
        }
    }
}

} // verus!
