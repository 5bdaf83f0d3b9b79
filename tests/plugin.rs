use falco_event::async_plugin::{
    async_event, AsyncPlugin, PLUGIN_FAILURE, PLUGIN_SUCCESS, PLUGIN_TIMEOUT,
};
use falco_event::envelope::{encode_event, EventMetadata, RawEvent};
use falco_event::extract::{ArgError, ExtractArgType, ExtractFieldRequestArg};
use falco_event::registry::EventKind;
use falco_event::storage::{ByteBuffer, FieldStorage};
use falco_event::tables::{check_table_entry_points, TableEntryPoints, TableError};
use falco_event::time_format::SystemTimeFormatter;
use falco_event::value::FieldValue;

#[test]
fn extract_arg_validation() {
    let none = ExtractFieldRequestArg::NoArg;
    let int = ExtractFieldRequestArg::Int(1);
    let key = ExtractFieldRequestArg::String(b"foo".as_slice());
    assert_eq!(none.key(ExtractArgType::NoArg), Ok(none));
    assert_eq!(none.key(ExtractArgType::OptionalKey), Ok(none));
    assert_eq!(none.key(ExtractArgType::RequiredIndex), Err(ArgError::Missing));
    assert_eq!(none.key(ExtractArgType::RequiredKey), Err(ArgError::Missing));
    assert_eq!(int.key(ExtractArgType::NoArg), Err(ArgError::Unexpected));
    assert_eq!(int.key(ExtractArgType::RequiredIndex), Ok(int));
    assert_eq!(int.key(ExtractArgType::OptionalKey), Err(ArgError::ExpectedString));
    assert_eq!(key.key(ExtractArgType::NoArg), Err(ArgError::Unexpected));
    assert_eq!(key.key(ExtractArgType::OptionalIndex), Err(ArgError::ExpectedInt));
    assert_eq!(key.key(ExtractArgType::RequiredKey), Ok(key));
    assert_eq!(ArgError::Missing.message(), "required argument missing");
}

#[test]
fn extract_arg_from_raw() {
    assert_eq!(ExtractFieldRequestArg::from_raw(false, None, 3), ExtractFieldRequestArg::NoArg);
    assert_eq!(ExtractFieldRequestArg::from_raw(true, None, 3), ExtractFieldRequestArg::Int(3));
    assert_eq!(
        ExtractFieldRequestArg::from_raw(true, Some(b"k".as_slice()), 3),
        ExtractFieldRequestArg::String(b"k".as_slice())
    );
}

#[test]
fn field_storage_sessions() {
    let mut storage = FieldStorage::default();
    {
        let mut session = storage.start();
        let b = session.get_byte_storage();
        b.push(1);
        let (b2, p) = session.get_byte_and_pointer_storage();
        b2.push(2);
        p.push(0x1000);
        let (b3, bufs) = session.get_byte_and_buffer_storage();
        b3.push(3);
        bufs.push(ByteBuffer { len: 1, addr: 0x2000 });
    }
    assert_eq!(storage.byte_storage, vec![vec![1u8], vec![2], vec![3]]);
    assert_eq!(storage.pointer_storage, vec![vec![0x1000usize]]);
    assert_eq!(storage.buffer_storage.len(), 1);
    {
        let mut session = storage.start();
        session.get_byte_storage().push(9);
    }
    assert_eq!(storage.byte_storage, vec![vec![9u8]]);
    assert!(storage.pointer_storage.is_empty());
    assert!(storage.buffer_storage.is_empty());
}

#[test]
fn table_entry_points() {
    let all = TableEntryPoints {
        tables: true,
        reader_ext: true,
        writer_ext: true,
        fields_ext: true,
        get_owner_last_error: true,
        list_tables: true,
        get_table: true,
        add_table: true,
    };
    assert_eq!(check_table_entry_points(&all), Ok(true));
    assert_eq!(check_table_entry_points(&TableEntryPoints { tables: false, ..all }), Ok(false));
    assert_eq!(
        check_table_entry_points(&TableEntryPoints { writer_ext: false, get_table: false, ..all }),
        Err(TableError::BadVtable("writer_ext"))
    );
    assert_eq!(
        check_table_entry_points(&TableEntryPoints { add_table: false, ..all }),
        Err(TableError::BadVtable("add_table"))
    );
}

fn emitted(name: &[u8]) -> Vec<u8> {
    async_event(name, b"payload".as_slice()).to_bytes().unwrap()
}

#[test]
fn async_plugin_queue() {
    let mut plugin = AsyncPlugin::new(Some(br#"["alpha", "beta"]"#.as_slice()));
    assert_eq!(plugin.async_events, vec![b"alpha".to_vec(), b"beta".to_vec()]);
    assert_eq!(plugin.next_event(), Err(PLUGIN_TIMEOUT));

    let first = emitted(b"beta");
    let second = emitted(b"alpha");
    assert_eq!(plugin.handle_async_event(&first), PLUGIN_SUCCESS);
    assert_eq!(plugin.handle_async_event(&emitted(b"gamma")), PLUGIN_FAILURE);
    assert_eq!(plugin.handle_async_event(&second), PLUGIN_SUCCESS);
    assert_eq!(plugin.handle_async_event(b"not an event".as_slice()), PLUGIN_FAILURE);

    assert_eq!(plugin.next_event(), Ok(first.clone()));
    assert_eq!(plugin.last_event, Some(first));
    assert_eq!(plugin.next_event(), Ok(second));
    assert_eq!(plugin.next_event(), Err(PLUGIN_TIMEOUT));
    assert_eq!(plugin.last_event, None);
}

#[test]
fn async_plugin_without_names() {
    let mut plugin = AsyncPlugin::new(Some(b"{not json".as_slice()));
    assert!(plugin.async_events.is_empty());
    assert_eq!(plugin.handle_async_event(&emitted(b"alpha")), PLUGIN_FAILURE);
    let plugin = AsyncPlugin::new(None);
    assert!(plugin.async_events.is_empty());
}

#[test]
fn async_event_helper() {
    let ev = async_event(b"name".as_slice(), b"data".as_slice());
    assert_eq!(ev.kind, EventKind::AsyncEventE);
    assert_eq!(ev.metadata, EventMetadata { ts: 0, tid: 0 });
    assert_eq!(ev.params[1], Some(FieldValue::CharBuf(b"name".as_slice())));
    let bytes = ev.to_bytes().unwrap();
    let raw = RawEvent::from(bytes.as_slice()).unwrap();
    assert_eq!(raw.load(EventKind::AsyncEventE).unwrap(), ev);
    let other = encode_event(EventMetadata { ts: 0, tid: 0 }, 402, true, &ev.params).unwrap();
    assert_eq!(other, bytes);
}

#[test]
fn system_time_formatter_renders_a_timestamp() {
    let s = SystemTimeFormatter(100 * 86400 * 1_000_000_000).format();
    assert!(s.starts_with("1970-04-1"));
    assert_ne!(s, (100u64 * 86400 * 1_000_000_000).to_string());
}
